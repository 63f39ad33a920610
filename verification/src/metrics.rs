//! Runtime counters of the decode pipeline.

use vstd::prelude::*;
use crate::decode::DF;

verus! {

/// The Downlink Format number of a decoded message.
pub open spec fn spec_df_number(df: DF) -> u8 {
    match df {
        DF::ShortAirAirSurveillance { .. } => 0,
        DF::SurveillanceAltitudeReply { .. } => 4,
        DF::SurveillanceIdentityReply { .. } => 5,
        DF::AllCallReply { .. } => 11,
        DF::LongAirAirSurveillance { .. } => 16,
        DF::ExtendedSquitterADSB { .. } => 17,
        DF::ExtendedSquitterTisB { .. } => 18,
        DF::ExtendedSquitterMilitary => 19,
        DF::CommBAltitudeReply { .. } => 20,
        DF::CommBIdentityReply { .. } => 21,
        DF::CommDExtended { .. } => 24,
    }
}

/// Returns the numeric Downlink Format for a decoded message.
pub fn df_number(df: &DF) -> (n: u8)
    ensures
        n == spec_df_number(*df),
{
    match df {
        DF::ShortAirAirSurveillance { .. } => 0,
        DF::SurveillanceAltitudeReply { .. } => 4,
        DF::SurveillanceIdentityReply { .. } => 5,
        DF::AllCallReply { .. } => 11,
        DF::LongAirAirSurveillance { .. } => 16,
        DF::ExtendedSquitterADSB { .. } => 17,
        DF::ExtendedSquitterTisB { .. } => 18,
        DF::ExtendedSquitterMilitary => 19,
        DF::CommBAltitudeReply { .. } => 20,
        DF::CommBIdentityReply { .. } => 21,
        DF::CommDExtended { .. } => 24,
    }
}

/// Counters of the decode pipeline since it started.
#[derive(Debug)]
pub struct Metrics {
    /// Unix timestamp (seconds) when decoding started
    start_time: u64,
    /// Raw messages received from all sources (before dedup)
    messages_received: u64,
    /// Messages emitted after deduplication
    messages_after_dedup: u64,
    /// Successful message decodes
    decode_successes: u64,
    /// Failed message decodes
    decode_errors: u64,
    /// BDS05/BDS06 position decode attempts
    position_attempts: u64,
    /// Position decodes that resolved lat/lon
    position_successes: u64,
    /// Decoded message counts by Downlink Format (indices 0–24)
    df_counts: [u64; 25],
}

/// The counters of [`Metrics`] as plain values.
pub struct MetricsView {
    pub start_time: u64,
    pub messages_received: u64,
    pub messages_after_dedup: u64,
    pub decode_successes: u64,
    pub decode_errors: u64,
    pub position_attempts: u64,
    pub position_successes: u64,
    pub df_counts: Seq<u64>,
}

impl View for Metrics {
    type V = MetricsView;

    closed spec fn view(&self) -> MetricsView {
        MetricsView {
            start_time: self.start_time,
            messages_received: self.messages_received,
            messages_after_dedup: self.messages_after_dedup,
            decode_successes: self.decode_successes,
            decode_errors: self.decode_errors,
            position_attempts: self.position_attempts,
            position_successes: self.position_successes,
            df_counts: self.df_counts@,
        }
    }
}

/// A counter after one more event; counters wrap around at `u64::MAX`.
pub open spec fn bump(x: u64) -> u64 {
    if x == u64::MAX {
        0
    } else {
        (x + 1) as u64
    }
}

/// The `df_counts` slot of a Downlink Format number: numbers past 24 share slot 24.
pub open spec fn df_slot(df_num: u8) -> int {
    if df_num > 24 {
        24
    } else {
        df_num as int
    }
}

/// Counters after recording a decoded message of Downlink Format `df_num`.
pub open spec fn spec_record_df(m: MetricsView, df_num: u8) -> MetricsView {
    MetricsView {
        df_counts: m.df_counts.update(df_slot(df_num), bump(m.df_counts[df_slot(df_num)])),
        ..m
    }
}

/// Serializable point-in-time view of all metrics.
#[derive(Debug, Clone, Copy, PartialEq, Eq, Structural)]
pub struct MetricsSnapshot {
    pub uptime_seconds: u64,
    pub active_aircraft: u64,
    pub messages_received: u64,
    pub messages_after_dedup: u64,
    pub decode_successes: u64,
    pub decode_errors: u64,
    pub position_attempts: u64,
    pub position_successes: u64,
    pub df_counts: DfCounts,
}

/// Decoded message counts broken out by Downlink Format.
#[derive(Debug, Clone, Copy, PartialEq, Eq, Structural)]
pub struct DfCounts {
    /// DF0 — Short Air-Air Surveillance
    pub df0: u64,
    /// DF4 — Surveillance Altitude Reply
    pub df4: u64,
    /// DF5 — Surveillance Identity Reply
    pub df5: u64,
    /// DF11 — All Call Reply
    pub df11: u64,
    /// DF16 — Long Air-Air Surveillance
    pub df16: u64,
    /// DF17 — ADS-B Extended Squitter
    pub df17: u64,
    /// DF18 — TIS-B Extended Squitter
    pub df18: u64,
    /// DF19 — Military Extended Squitter
    pub df19: u64,
    /// DF20 — Comm-B Altitude Reply
    pub df20: u64,
    /// DF21 — Comm-B Identity Reply
    pub df21: u64,
    /// DF24 — Comm-D Extended
    pub df24: u64,
}

/// The snapshot of counters `m` at Unix time `now`.
pub open spec fn spec_snapshot(m: MetricsView, now: u64, active_aircraft: usize) -> MetricsSnapshot {
    MetricsSnapshot {
        uptime_seconds: (now - m.start_time) as u64,
        active_aircraft: active_aircraft as u64,
        messages_received: m.messages_received,
        messages_after_dedup: m.messages_after_dedup,
        decode_successes: m.decode_successes,
        decode_errors: m.decode_errors,
        position_attempts: m.position_attempts,
        position_successes: m.position_successes,
        df_counts: DfCounts {
            df0: m.df_counts[0],
            df4: m.df_counts[4],
            df5: m.df_counts[5],
            df11: m.df_counts[11],
            df16: m.df_counts[16],
            df17: m.df_counts[17],
            df18: m.df_counts[18],
            df19: m.df_counts[19],
            df20: m.df_counts[20],
            df21: m.df_counts[21],
            df24: m.df_counts[24],
        },
    }
}

/// The count that a snapshot reports for Downlink Format `df_num`.
pub open spec fn reported_count(c: DfCounts, df_num: u8) -> Option<u64> {
    if df_num == 0 {
        Some(c.df0)
    } else if df_num == 4 {
        Some(c.df4)
    } else if df_num == 5 {
        Some(c.df5)
    } else if df_num == 11 {
        Some(c.df11)
    } else if df_num == 16 {
        Some(c.df16)
    } else if df_num == 17 {
        Some(c.df17)
    } else if df_num == 18 {
        Some(c.df18)
    } else if df_num == 19 {
        Some(c.df19)
    } else if df_num == 20 {
        Some(c.df20)
    } else if df_num == 21 {
        Some(c.df21)
    } else if df_num == 24 {
        Some(c.df24)
    } else {
        None
    }
}

impl Metrics {
    /// All counters at zero, started at Unix time `start_time` (seconds).
    pub fn new(start_time: u64) -> (m: Self)
        ensures
            m@.start_time == start_time,
            m@.messages_received == 0,
            m@.messages_after_dedup == 0,
            m@.decode_successes == 0,
            m@.decode_errors == 0,
            m@.position_attempts == 0,
            m@.position_successes == 0,
            m@.df_counts == Seq::new(25, |i: int| 0u64),
            m@.df_counts.len() == 25,
    {
        let m = Metrics {
            start_time,
            messages_received: 0,
            messages_after_dedup: 0,
            decode_successes: 0,
            decode_errors: 0,
            position_attempts: 0,
            position_successes: 0,
            df_counts: [0u64; 25],
        };
        assert(m@.df_counts =~= Seq::new(25, |i: int| 0u64));
        m
    }

    /// Unix time (seconds) at which counting started.
    pub fn start_time(&self) -> (t: u64)
        ensures
            t == self@.start_time,
            self@.df_counts.len() == 25,
    {
        self.start_time
    }

    pub fn record_received(&mut self)
        ensures
            final(self)@ == (MetricsView { messages_received: bump(old(self)@.messages_received), ..old(self)@ }),
            final(self)@ == record_counter(old(self)@, 0),
            final(self)@.df_counts.len() == 25,
    {
        self.messages_received = self.messages_received.wrapping_add(1);
    }

    pub fn record_after_dedup(&mut self)
        ensures
            final(self)@ == (MetricsView { messages_after_dedup: bump(old(self)@.messages_after_dedup), ..old(self)@ }),
            final(self)@ == record_counter(old(self)@, 1),
            final(self)@.df_counts.len() == 25,
    {
        self.messages_after_dedup = self.messages_after_dedup.wrapping_add(1);
    }

    pub fn record_decode_success(&mut self)
        ensures
            final(self)@ == (MetricsView { decode_successes: bump(old(self)@.decode_successes), ..old(self)@ }),
            final(self)@ == record_counter(old(self)@, 2),
            final(self)@.df_counts.len() == 25,
    {
        self.decode_successes = self.decode_successes.wrapping_add(1);
    }

    pub fn record_decode_error(&mut self)
        ensures
            final(self)@ == (MetricsView { decode_errors: bump(old(self)@.decode_errors), ..old(self)@ }),
            final(self)@ == record_counter(old(self)@, 3),
            final(self)@.df_counts.len() == 25,
    {
        self.decode_errors = self.decode_errors.wrapping_add(1);
    }

    pub fn record_position_attempt(&mut self)
        ensures
            final(self)@ == (MetricsView { position_attempts: bump(old(self)@.position_attempts), ..old(self)@ }),
            final(self)@ == record_counter(old(self)@, 4),
            final(self)@.df_counts.len() == 25,
    {
        self.position_attempts = self.position_attempts.wrapping_add(1);
    }

    pub fn record_position_success(&mut self)
        ensures
            final(self)@ == (MetricsView { position_successes: bump(old(self)@.position_successes), ..old(self)@ }),
            final(self)@ == record_counter(old(self)@, 5),
            final(self)@.df_counts.len() == 25,
    {
        self.position_successes = self.position_successes.wrapping_add(1);
    }

    /// Counts a decoded message of Downlink Format `df_num`; numbers past
    /// 24 are counted with 24.
    pub fn record_df(&mut self, df_num: u8)
        ensures
            final(self)@ == spec_record_df(old(self)@, df_num),
            final(self)@.df_counts.len() == 25,
    {
        let idx: usize = if df_num > 24 { 24 } else { df_num as usize };
        let v = self.df_counts[idx].wrapping_add(1);
        self.df_counts[idx] = v;
    }

    /// Produce a serializable point-in-time snapshot of all counters, at
    /// Unix time `now` (seconds, not before the start time).
    pub fn snapshot(&self, now: u64, active_aircraft: usize) -> (s: MetricsSnapshot)
        requires
            self@.start_time <= now,
        ensures
            s == spec_snapshot(self@, now, active_aircraft),
            self@.df_counts.len() == 25,
    {
        MetricsSnapshot {
            uptime_seconds: now - self.start_time,
            active_aircraft: active_aircraft as u64,
            messages_received: self.messages_received,
            messages_after_dedup: self.messages_after_dedup,
            decode_successes: self.decode_successes,
            decode_errors: self.decode_errors,
            position_attempts: self.position_attempts,
            position_successes: self.position_successes,
            df_counts: DfCounts {
                df0: self.df_counts[0],
                df4: self.df_counts[4],
                df5: self.df_counts[5],
                df11: self.df_counts[11],
                df16: self.df_counts[16],
                df17: self.df_counts[17],
                df18: self.df_counts[18],
                df19: self.df_counts[19],
                df20: self.df_counts[20],
                df21: self.df_counts[21],
                df24: self.df_counts[24],
            },
        }
    }
}

/// Every decoded message has a Downlink Format that the snapshot reports,
/// and recording it raises that reported count by one (wrapping), leaving
/// the other reported counts as they were.
pub proof fn lemma_recorded_df_is_reported(m: MetricsView, df: DF, other: u8, now: u64, active_aircraft: usize)
    requires
        m.df_counts.len() == 25,
        m.start_time <= now,
        other != spec_df_number(df),
    ensures
        ({
            let n = spec_df_number(df);
            let before = spec_snapshot(m, now, active_aircraft).df_counts;
            let after = spec_snapshot(spec_record_df(m, n), now, active_aircraft).df_counts;
            &&& reported_count(before, n) is Some
            &&& reported_count(after, n) == Some(bump(reported_count(before, n)->0))
            &&& reported_count(after, other) == reported_count(before, other)
        }),
{
}

/// Every `Metrics` holds 25 Downlink Format counters.
pub proof fn lemma_df_counts_len(m: Metrics)
    ensures
        m@.df_counts.len() == 25,
{
}

/// A snapshot only reads the counters: two snapshots of the same counters
/// report the same counts, and the later one no less uptime.
pub proof fn lemma_snapshots_agree(m: MetricsView, a: u64, b: u64, active_a: usize, active_b: usize)
    requires
        m.df_counts.len() == 25,
        m.start_time <= a <= b,
    ensures
        ({
            let s1 = spec_snapshot(m, a, active_a);
            let s2 = spec_snapshot(m, b, active_b);
            &&& s1.messages_received == s2.messages_received
            &&& s1.messages_after_dedup == s2.messages_after_dedup
            &&& s1.decode_successes == s2.decode_successes
            &&& s1.decode_errors == s2.decode_errors
            &&& s1.position_attempts == s2.position_attempts
            &&& s1.position_successes == s2.position_successes
            &&& s1.df_counts == s2.df_counts
            &&& s1.uptime_seconds <= s2.uptime_seconds
        }),
{
}

/// Counters after one more event of kind `i`: 0 received, 1 after dedup,
/// 2 decode success, 3 decode error, 4 position attempt, 5 position success.
pub open spec fn record_counter(m: MetricsView, i: int) -> MetricsView {
    if i == 0 {
        MetricsView { messages_received: bump(m.messages_received), ..m }
    } else if i == 1 {
        MetricsView { messages_after_dedup: bump(m.messages_after_dedup), ..m }
    } else if i == 2 {
        MetricsView { decode_successes: bump(m.decode_successes), ..m }
    } else if i == 3 {
        MetricsView { decode_errors: bump(m.decode_errors), ..m }
    } else if i == 4 {
        MetricsView { position_attempts: bump(m.position_attempts), ..m }
    } else {
        MetricsView { position_successes: bump(m.position_successes), ..m }
    }
}

/// The event counts a snapshot reports, in the order of [`record_counter`].
pub open spec fn reported_events(s: MetricsSnapshot) -> Seq<u64> {
    seq![
        s.messages_received,
        s.messages_after_dedup,
        s.decode_successes,
        s.decode_errors,
        s.position_attempts,
        s.position_successes,
    ]
}

/// Each event kind is reported in its own snapshot field: recording one
/// event of kind `i` raises the reported count of kind `i` by one
/// (wrapping) and leaves every other reported count, the Downlink Format
/// counts and the uptime as they were.
pub proof fn lemma_each_event_reported(m: MetricsView, i: int, now: u64, active_aircraft: usize)
    requires
        0 <= i < 6,
        m.df_counts.len() == 25,
        m.start_time <= now,
    ensures
        ({
            let before = spec_snapshot(m, now, active_aircraft);
            let after = spec_snapshot(record_counter(m, i), now, active_aircraft);
            &&& reported_events(after) == reported_events(before).update(i, bump(reported_events(before)[i]))
            &&& after.df_counts == before.df_counts
            &&& after.uptime_seconds == before.uptime_seconds
        }),
{
    let before = spec_snapshot(m, now, active_aircraft);
    let after = spec_snapshot(record_counter(m, i), now, active_aircraft);
    assert(reported_events(after) =~= reported_events(before).update(i, bump(reported_events(before)[i])));
}

/// A fresh counter set reports zero for every event kind, and counting
/// from it reports exactly the events recorded: after `n` events of kind
/// `i` (fewer than 2^64), the reported count of kind `i` is `n`.
pub proof fn lemma_counts_from_start(m: MetricsView, i: int, n: nat, now: u64, active_aircraft: usize)
    requires
        0 <= i < 6,
        m.df_counts.len() == 25,
        m.start_time <= now,
        reported_events(spec_snapshot(m, now, active_aircraft)) == Seq::new(6, |k: int| 0u64),
        n <= u64::MAX,
    ensures
        reported_events(spec_snapshot(record_times(m, i, n), now, active_aircraft))[i] == n,
        record_times(m, i, n).df_counts.len() == 25,
        record_times(m, i, n).start_time == m.start_time,
    decreases n,
{
    if n > 0 {
        lemma_counts_from_start(m, i, (n - 1) as nat, now, active_aircraft);
        lemma_each_event_reported(record_times(m, i, (n - 1) as nat), i, now, active_aircraft);
    }
}

/// Counters after `n` events of kind `i`.
pub open spec fn record_times(m: MetricsView, i: int, n: nat) -> MetricsView
    decreases n,
{
    if n == 0 {
        m
    } else {
        record_counter(record_times(m, i, (n - 1) as nat), i)
    }
}

} // verus!
