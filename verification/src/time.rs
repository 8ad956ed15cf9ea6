pub mod ntp;

use vstd::prelude::*;
use crate::time::ntp::{decode_packet, unix_seconds, Packet, PACKET_LEN};

verus! {

/// Wall-clock time kept from the last NTP synchronisation: the Unix time that
/// the server gave and the boot-relative second at which it was received.
#[derive(Debug, Clone, Copy, PartialEq, Eq, Structural)]
pub struct Time {
    pub base_timestamp: u64,
    pub seconds_since_boot: u64,
}

/// Seconds since boot, read from embassy-time's clock (`Instant::now().as_secs()`).
/// The value depends on when the call is made: nothing is promised of it.
#[verifier::external_body]
fn clock_seconds_since_boot() -> u64 {
    embassy_time::Instant::now().as_secs()
}

impl Time {
    /// The Unix time at boot-relative second `current`: the synchronised Unix
    /// time plus the seconds elapsed since the synchronisation. `None` where
    /// `current` lies before the synchronisation or the sum leaves `u64`.
    pub open spec fn time_at(self, current: int) -> Option<int> {
        let t = self.base_timestamp + (current - self.seconds_since_boot);
        if current >= self.seconds_since_boot && t <= u64::MAX {
            Some(t)
        } else {
            None
        }
    }

    /// The clock after a synchronisation whose response was `response`,
    /// received at boot-relative second `seconds_since_boot`.
    pub open spec fn synced(response: Seq<u8>, seconds_since_boot: u64) -> Time {
        Time {
            base_timestamp: unix_seconds(decode_packet(response).transmit_timestamp) as u64,
            seconds_since_boot,
        }
    }

    /// A clock that was never synchronised: Unix time 0 at boot.
    pub fn new() -> (t: Self)
        ensures
            t.base_timestamp == 0,
            t.seconds_since_boot == 0,
    {
        Time { base_timestamp: 0, seconds_since_boot: 0 }
    }

    /// The Unix time at boot-relative second `current_secs`.
    pub fn now_at(&self, current_secs: u64) -> (r: Option<u64>)
        ensures
            r matches Some(t) ==> self.time_at(current_secs as int) == Some(t as int),
            r is None <==> self.time_at(current_secs as int) is None,
    {
        if current_secs < self.seconds_since_boot {
            return None;
        }
        let elapsed = current_secs - self.seconds_since_boot;
        self.base_timestamp.checked_add(elapsed)
    }

    /// The Unix time now: `now_at` of the second since boot that the clock
    /// reads. Which second that is depends on when the call is made; a time
    /// that is returned is never earlier than the synchronised time.
    pub fn now(&self) -> (r: Option<u64>)
        ensures
            match r {
                Some(t) => exists|c: u64| #[trigger] self.time_at(c as int) == Some(t as int),
                None => exists|c: u64| #[trigger] self.time_at(c as int) is None,
            },
            r matches Some(t) ==> t >= self.base_timestamp,
    {
        let current = clock_seconds_since_boot();
        self.now_at(current)
    }

    /// Takes the server's response to an NTP request, received at
    /// boot-relative second `seconds_since_boot`: the clock now counts from
    /// its transmit timestamp. A response too short to hold a packet leaves
    /// the clock as it was.
    pub fn apply_ntp_response(&mut self, response: &[u8], seconds_since_boot: u64) -> (r: Result<
        (),
        &'static str,
    >)
        ensures
            r is Err <==> response@.len() < PACKET_LEN,
            r is Ok ==> *final(self) == Time::synced(response@, seconds_since_boot),
            r is Err ==> *final(self) == *old(self),
    {
        match Packet::from_bytes(response) {
            Ok(packet) => {
                self.base_timestamp = packet.get_unix_time();
                self.seconds_since_boot = seconds_since_boot;
                Ok(())
            },
            Err(e) => Err(e),
        }
    }

    /// Takes the server's response to an NTP request, received now: reads the
    /// clock since boot, then proceeds as `apply_ntp_response`.
    pub fn sync_from_response(&mut self, response: &[u8]) -> (r: Result<(), &'static str>)
        ensures
            r is Err <==> response@.len() < PACKET_LEN,
            r is Ok ==> exists|s: u64| *final(self) == #[trigger] Time::synced(response@, s),
            r is Err ==> *final(self) == *old(self),
    {
        let seconds_since_boot = clock_seconds_since_boot();
        self.apply_ntp_response(response, seconds_since_boot)
    }
}

/// After a synchronisation at boot-relative second `s`, the time `e` seconds
/// later is the server's Unix time plus `e`, as long as it fits in `u64`.
pub proof fn law_time_counts_from_sync(response: Seq<u8>, s: u64, e: nat)
    requires
        response.len() >= PACKET_LEN,
        unix_seconds(decode_packet(response).transmit_timestamp) + e <= u64::MAX,
    ensures
        Time::synced(response, s).time_at(s + e) == Some(
            unix_seconds(decode_packet(response).transmit_timestamp) + e,
        ),
{
}

/// Time never runs backwards: of two seconds since boot that both have a
/// time, the later one has the later or equal Unix time.
pub proof fn law_time_is_monotonic(t: Time, c1: int, c2: int)
    requires
        c1 <= c2,
        t.time_at(c1) is Some,
        t.time_at(c2) is Some,
    ensures
        t.time_at(c1)->0 <= t.time_at(c2)->0,
{
}

/// Before the synchronisation point there is no time; at it, the time is the
/// synchronised Unix time.
pub proof fn law_time_at_sync_point(t: Time, c: int)
    ensures
        c < t.seconds_since_boot ==> t.time_at(c) is None,
        t.time_at(t.seconds_since_boot as int) == Some(t.base_timestamp as int),
{
}

/// The clock keeps pace with the time since boot: `e` seconds after a
/// second that has a time, the time is `e` seconds later, as long as it fits
/// in `u64`.
pub proof fn law_time_advances_with_boot_seconds(t: Time, c: int, e: nat)
    requires
        t.time_at(c) is Some,
        t.time_at(c).unwrap() + e <= u64::MAX,
    ensures
        t.time_at(c + e) == Some(t.time_at(c).unwrap() + e),
{
}

} // verus!
