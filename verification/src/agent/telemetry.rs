//! What a run is measured by.
use crate::agent::payload::PreparedPayloads;
use crate::agent::replay::ReplayRole;
use crate::digest::{sha256_hex, sha256_text};
use crate::domain::load::{round_ratio, rounded, rounded_whole};
use crate::domain::payload::{PayloadKind, PayloadProfile};
use crate::domain::scenario::Scenario;
use crate::num::power_of_two;
use crate::text::{chars_of, contains_text, has_text, lower_chars, lowered, maybe};
use vstd::arithmetic::power2::pow2;
use vstd::prelude::*;

verus! {

/// What a failure is, by the words of its message.
#[derive(Debug, Clone, Copy, PartialEq, Eq, Structural)]
pub struct FailureKinds {
    pub timeout: bool,
    pub reset: bool,
    pub tls_handshake: bool,
    pub proxy_connect: bool,
    pub http_error: bool,
}

/// What a failure with this message is. Case does not matter, and it can be more than one thing.
pub open spec fn failure_kinds(message: Seq<char>) -> FailureKinds {
    let text = lowered(message);
    FailureKinds {
        timeout: contains_text(text, "deadline has elapsed"@) || contains_text(text, "timed out"@),
        reset: contains_text(text, "connection reset"@) || contains_text(text, "forcibly closed"@),
        tls_handshake: contains_text(text, "tls handshake failed"@),
        proxy_connect: contains_text(text, "http connect failed"@),
        http_error: contains_text(text, "http error response"@),
    }
}

/// What a failure with this message is.
pub fn classify_failure(message: &str) -> (r: FailureKinds)
    ensures
        r == failure_kinds(message@),
{
    let chars = chars_of(message);
    let text = lower_chars(chars.as_slice());
    FailureKinds {
        timeout: has_text(text.as_slice(), "deadline has elapsed") || has_text(
            text.as_slice(),
            "timed out",
        ),
        reset: has_text(text.as_slice(), "connection reset") || has_text(
            text.as_slice(),
            "forcibly closed",
        ),
        tls_handshake: has_text(text.as_slice(), "tls handshake failed"),
        proxy_connect: has_text(text.as_slice(), "http connect failed"),
        http_error: has_text(text.as_slice(), "http error response"),
    }
}

/// The counts of a run.
#[derive(Debug, Clone, Copy, PartialEq, Eq, Structural)]
pub struct Counters {
    pub attempted: u64,
    pub established: u64,
    pub failed: u64,
    pub transactions: u64,
    pub transaction_errors: u64,
    pub timeout_errors: u64,
    pub reset_errors: u64,
    pub tls_handshake_errors: u64,
    pub proxy_connect_errors: u64,
    pub http_error_responses: u64,
    pub tx: u64,
    pub rx: u64,
    pub packets_tx: u64,
    pub packets_rx: u64,
    pub wire_tx_bytes: u64,
    pub wire_rx_bytes: u64,
    pub tcp_retransmissions: u64,
}

/// No counts.
pub open spec fn no_counts() -> Counters {
    Counters {
        attempted: 0,
        established: 0,
        failed: 0,
        transactions: 0,
        transaction_errors: 0,
        timeout_errors: 0,
        reset_errors: 0,
        tls_handshake_errors: 0,
        proxy_connect_errors: 0,
        http_error_responses: 0,
        tx: 0,
        rx: 0,
        packets_tx: 0,
        packets_rx: 0,
        wire_tx_bytes: 0,
        wire_rx_bytes: 0,
        tcp_retransmissions: 0,
    }
}

impl Default for Counters {
    fn default() -> (r: Counters)
        ensures
            r == no_counts(),
    {
        Counters {
            attempted: 0,
            established: 0,
            failed: 0,
            transactions: 0,
            transaction_errors: 0,
            timeout_errors: 0,
            reset_errors: 0,
            tls_handshake_errors: 0,
            proxy_connect_errors: 0,
            http_error_responses: 0,
            tx: 0,
            rx: 0,
            packets_tx: 0,
            packets_rx: 0,
            wire_tx_bytes: 0,
            wire_rx_bytes: 0,
            tcp_retransmissions: 0,
        }
    }
}

/// A count with one more, or as it is. Counts wrap around at 2^64.
pub open spec fn counted(count: u64, more: bool) -> u64 {
    if more {
        count.wrapping_add(1)
    } else {
        count
    }
}

/// A count with one more, or as it is.
fn count_if(count: u64, more: bool) -> (r: u64)
    ensures
        r == counted(count, more),
{
    if more {
        count.wrapping_add(1)
    } else {
        count
    }
}

impl Counters {
    /// The counts with a failure classified.
    pub open spec fn with_failure(self, message: Seq<char>) -> Counters {
        let kinds = failure_kinds(message);
        Counters {
            timeout_errors: counted(self.timeout_errors, kinds.timeout),
            reset_errors: counted(self.reset_errors, kinds.reset),
            tls_handshake_errors: counted(self.tls_handshake_errors, kinds.tls_handshake),
            proxy_connect_errors: counted(self.proxy_connect_errors, kinds.proxy_connect),
            http_error_responses: counted(self.http_error_responses, kinds.http_error),
            ..self
        }
    }

    /// Classifies a failure. The counts of failed connections and transactions stay as they are.
    pub fn record_failure(&mut self, message: &str)
        ensures
            *final(self) == old(self).with_failure(message@),
    {
        let kinds = classify_failure(message);
        self.timeout_errors = count_if(self.timeout_errors, kinds.timeout);
        self.reset_errors = count_if(self.reset_errors, kinds.reset);
        self.tls_handshake_errors = count_if(self.tls_handshake_errors, kinds.tls_handshake);
        self.proxy_connect_errors = count_if(self.proxy_connect_errors, kinds.proxy_connect);
        self.http_error_responses = count_if(self.http_error_responses, kinds.http_error);
    }

    /// Counts a connection that failed, and classifies the failure.
    pub fn connection_failed(&mut self, message: &str)
        ensures
            *final(self) == (Counters {
                failed: old(self).failed.wrapping_add(1),
                transaction_errors: old(self).transaction_errors.wrapping_add(1),
                ..old(self).with_failure(message@)
            }),
    {
        self.failed = self.failed.wrapping_add(1);
        self.transaction_errors = self.transaction_errors.wrapping_add(1);
        self.record_failure(message);
    }
}

/// What changed between two reports.
#[derive(Debug, Clone, Copy, PartialEq, Eq, Structural)]
pub struct CounterDeltas {
    pub established: u64,
    pub transactions: u64,
    pub tx: u64,
    pub rx: u64,
    pub packets_tx: u64,
    pub packets_rx: u64,
    pub wire_tx_bytes: u64,
    pub wire_rx_bytes: u64,
    pub tcp_retransmissions: u64,
}

/// The counts have not gone back. The bytes on the wire may: an interface can start anew.
pub open spec fn no_less(now: Counters, before: Counters) -> bool {
    &&& before.established <= now.established
    &&& before.transactions <= now.transactions
    &&& before.tx <= now.tx
    &&& before.rx <= now.rx
    &&& before.packets_tx <= now.packets_tx
    &&& before.packets_rx <= now.packets_rx
    &&& before.tcp_retransmissions <= now.tcp_retransmissions
}

/// A difference that is never below zero.
pub open spec fn difference(now: u64, before: u64) -> int {
    if now > before {
        now - before
    } else {
        0
    }
}

/// What changed between two reports.
pub fn report_deltas(now: &Counters, before: &Counters) -> (r: CounterDeltas)
    requires
        no_less(*now, *before),
    ensures
        r.established == now.established - before.established,
        r.transactions == now.transactions - before.transactions,
        r.tx == now.tx - before.tx,
        r.rx == now.rx - before.rx,
        r.packets_tx == now.packets_tx - before.packets_tx,
        r.packets_rx == now.packets_rx - before.packets_rx,
        r.wire_tx_bytes == difference(now.wire_tx_bytes, before.wire_tx_bytes),
        r.wire_rx_bytes == difference(now.wire_rx_bytes, before.wire_rx_bytes),
        r.tcp_retransmissions == now.tcp_retransmissions - before.tcp_retransmissions,
{
    CounterDeltas {
        established: now.established - before.established,
        transactions: now.transactions - before.transactions,
        tx: now.tx - before.tx,
        rx: now.rx - before.rx,
        packets_tx: now.packets_tx - before.packets_tx,
        packets_rx: now.packets_rx - before.packets_rx,
        wire_tx_bytes: now.wire_tx_bytes.saturating_sub(before.wire_tx_bytes),
        wire_rx_bytes: now.wire_rx_bytes.saturating_sub(before.wire_rx_bytes),
        tcp_retransmissions: now.tcp_retransmissions - before.tcp_retransmissions,
    }
}

/// How many connections have been open since the last report: their number now, the least and the
/// greatest, and the sum of their number over the nanoseconds that passed.
#[derive(Debug, Clone, Copy, PartialEq, Eq, Structural)]
pub struct ActiveWindow {
    pub current: u64,
    pub min: u64,
    pub max: u64,
    pub weighted_nanos: u128,
    pub window_started: u64,
    pub last_change: u64,
}

/// What a report says of the open connections. The average is `weighted_nanos` over
/// `elapsed_nanos`.
#[derive(Debug, Clone, Copy, PartialEq, Eq, Structural)]
pub struct ActiveSnapshot {
    pub current: u64,
    pub weighted_nanos: u128,
    pub elapsed_nanos: u64,
    pub min: u64,
    pub max: u64,
}

impl ActiveWindow {
    /// A window that starts now without connections.
    pub fn start(now: u64) -> (r: ActiveWindow)
        ensures
            r == (ActiveWindow {
                current: 0,
                min: 0,
                max: 0,
                weighted_nanos: 0,
                window_started: now,
                last_change: now,
            }),
    {
        ActiveWindow {
            current: 0,
            min: 0,
            max: 0,
            weighted_nanos: 0,
            window_started: now,
            last_change: now,
        }
    }

    /// The number of connections so far lies within its bounds, and so does its sum over time.
    pub open spec fn consistent(self) -> bool {
        let elapsed = self.last_change - self.window_started;
        &&& self.window_started <= self.last_change
        &&& self.min <= self.current <= self.max
        &&& self.min * elapsed <= self.weighted_nanos <= self.max * elapsed
    }

    /// The sum over time, up to now.
    pub open spec fn accounted(self, now: u64) -> int {
        self.weighted_nanos + self.current * difference(now, self.last_change)
    }

    /// Accounts for the time up to now.
    pub fn account_until(&mut self, now: u64)
        requires
            old(self).accounted(now) <= u128::MAX,
        ensures
            *final(self) == (ActiveWindow {
                weighted_nanos: old(self).accounted(now) as u128,
                last_change: now,
                ..*old(self)
            }),
    {
        let passed: u64 = now.saturating_sub(self.last_change);
        assert(self.current * passed <= 0xffff_ffff_ffff_ffff * 0xffff_ffff_ffff_ffff)
            by (nonlinear_arith)
            requires
                self.current <= 0xffff_ffff_ffff_ffff,
                passed <= 0xffff_ffff_ffff_ffff,
        ;
        let more: u128 = self.current as u128 * passed as u128;
        self.weighted_nanos = self.weighted_nanos + more;
        self.last_change = now;
    }

    /// Counts a connection that was opened.
    pub fn connection_opened(&mut self, now: u64)
        requires
            old(self).accounted(now) <= u128::MAX,
            old(self).current < u64::MAX,
        ensures
            final(self).current == old(self).current + 1,
            final(self).min == (if old(self).min < old(self).current + 1 {
                old(self).min as int
            } else {
                old(self).current + 1
            }),
            final(self).max == (if old(self).max > old(self).current + 1 {
                old(self).max as int
            } else {
                old(self).current + 1
            }),
            final(self).weighted_nanos == old(self).accounted(now),
            final(self).window_started == old(self).window_started,
            final(self).last_change == now,
    {
        self.account_until(now);
        self.current = self.current + 1;
        if self.current < self.min {
            self.min = self.current;
        }
        if self.current > self.max {
            self.max = self.current;
        }
    }

    /// Counts a connection that was closed.
    pub fn connection_closed(&mut self, now: u64)
        requires
            old(self).accounted(now) <= u128::MAX,
        ensures
            final(self).current == difference(old(self).current, 1),
            final(self).min == (if old(self).min < difference(old(self).current, 1) {
                old(self).min as int
            } else {
                difference(old(self).current, 1)
            }),
            final(self).max == old(self).max,
            final(self).weighted_nanos == old(self).accounted(now),
            final(self).window_started == old(self).window_started,
            final(self).last_change == now,
    {
        self.account_until(now);
        self.current = self.current.saturating_sub(1);
        if self.current < self.min {
            self.min = self.current;
        }
    }

    /// What the window says up to now; a new one starts.
    pub fn active_snapshot(&mut self, now: u64) -> (r: ActiveSnapshot)
        requires
            old(self).accounted(now) <= u128::MAX,
        ensures
            r.current == old(self).current,
            r.weighted_nanos == old(self).accounted(now),
            r.elapsed_nanos == (if difference(now, old(self).window_started) > 1 {
                difference(now, old(self).window_started)
            } else {
                1
            }),
            r.min == old(self).min,
            r.max == old(self).max,
            *final(self) == (ActiveWindow {
                current: old(self).current,
                min: old(self).current,
                max: old(self).current,
                weighted_nanos: 0,
                window_started: now,
                last_change: now,
            }),
    {
        self.account_until(now);
        let passed: u64 = now.saturating_sub(self.window_started);
        let r = ActiveSnapshot {
            current: self.current,
            weighted_nanos: self.weighted_nanos,
            elapsed_nanos: if passed > 1 {
                passed
            } else {
                1
            },
            min: self.min,
            max: self.max,
        };
        self.weighted_nanos = 0;
        self.window_started = now;
        self.min = self.current;
        self.max = self.current;
        r
    }
}

/// As time passes, the sum over time stays between the least and the greatest number of
/// connections times the time that passed: the average lies within the bounds. It never exceeds
/// 128 bits.
pub proof fn averages_stay_within_bounds(window: ActiveWindow, now: u64)
    requires
        window.consistent(),
        window.last_change <= now,
    ensures
        window.accounted(now) <= u128::MAX,
        ({
            let elapsed = now - window.window_started;
            window.min * elapsed <= window.accounted(now) <= window.max * elapsed
        }),
{
    let old_elapsed = window.last_change - window.window_started;
    let passed = now - window.last_change;
    let elapsed = now - window.window_started;
    assert(window.min * elapsed == window.min * old_elapsed + window.min * passed)
        by (nonlinear_arith)
        requires
            elapsed == old_elapsed + passed,
    ;
    assert(window.max * elapsed == window.max * old_elapsed + window.max * passed)
        by (nonlinear_arith)
        requires
            elapsed == old_elapsed + passed,
    ;
    assert(window.min * passed <= window.current * passed <= window.max * passed)
        by (nonlinear_arith)
        requires
            window.min <= window.current <= window.max,
            passed >= 0,
    ;
    assert(window.max * elapsed <= 0xffff_ffff_ffff_ffff * 0xffff_ffff_ffff_ffff)
        by (nonlinear_arith)
        requires
            window.max <= 0xffff_ffff_ffff_ffff,
            0 <= elapsed <= 0xffff_ffff_ffff_ffff,
    ;
}

/// `Vec::sort_unstable` of the standard library: the same numbers, each as often, in ascending
/// order.
#[verifier::external_body]
fn sort_ascending(list: &mut Vec<u64>)
    ensures
        final(list)@.to_multiset() == old(list)@.to_multiset(),
        final(list)@.len() == old(list)@.len(),
        forall|i: int, j: int| 0 <= i <= j < final(list)@.len() ==> final(list)@[i] <= final(list)@[j],
{
    list.sort_unstable()
}

/// A percentile that is reported.
#[derive(Debug, Clone, Copy, PartialEq, Eq, Structural)]
pub enum Percentile {
    P50,
    P95,
    P99,
}

/// The number in double precision nearest to a percentile, in units of 2^-53.
pub open spec fn percentile_units(p: Percentile) -> int {
    match p {
        Percentile::P50 => 0x10_0000_0000_0000,
        Percentile::P95 => 0x1e_6666_6666_6666,
        Percentile::P99 => 0x1f_ae14_7ae1_47ae,
    }
}

/// Which of `count` samples in ascending order stands for a percentile: the whole part of the
/// percentile of the last position, in double precision.
pub open spec fn percentile_position(count: int, p: Percentile) -> int {
    if count <= 1 {
        0
    } else {
        let x = rounded((count - 1) * percentile_units(p), 1);
        (x.m * pow2(x.e as nat)) / 0x20_0000_0000_0000
    }
}

/// Which of `count` samples in ascending order stands for a percentile.
pub fn percentile_index(count: usize, p: Percentile) -> (r: usize)
    requires
        0 < count <= 0x20_0000_0000_0000,
    ensures
        r == percentile_position(count as int, p),
        r < count,
{
    if count == 1 {
        return 0;
    }
    let units: u64 = match p {
        Percentile::P50 => 0x10_0000_0000_0000,
        Percentile::P95 => 0x1e_6666_6666_6666,
        Percentile::P99 => 0x1f_ae14_7ae1_47ae,
    };
    let last: u64 = (count - 1) as u64;
    assert(0x10_0000_0000_0000 <= last * units <= last * 0x1f_c000_0000_0000) by (nonlinear_arith)
        requires
            1 <= last,
            0x10_0000_0000_0000 <= units <= 0x1f_c000_0000_0000,
    ;
    let num: u128 = last as u128 * units as u128;
    let (m, e) = round_ratio(num, 1);
    let ghost power = pow2(e as nat) as int;
    proof {
        rounded_whole(num as int);
        vstd::arithmetic::power2::lemma2_to64();
        vstd::arithmetic::power2::lemma2_to64_rest();
        if e >= 60 {
            vstd::arithmetic::power2::lemma_pow2_strictly_increases(59, e as nat);
            assert(false);
        }
        assert(m * power >= 0) by (nonlinear_arith)
            requires
                m >= 0,
                power >= 0,
        ;
    }
    let factor: u128 = power_of_two(e as u32);
    assert(factor == power);
    let whole: u128 = m as u128 * factor;
    assert(whole < count * 0x20_0000_0000_0000);
    (whole / 0x20_0000_0000_0000) as usize
}

/// A percentile of samples in microseconds: zero if there are none.
pub open spec fn is_percentile(samples: Seq<u64>, p: Percentile, value: u64) -> bool {
    if samples.len() == 0 {
        value == 0
    } else {
        exists|sorted: Seq<u64>| #[trigger]
            is_sorting(samples, sorted) && value == sorted[percentile_position(
                samples.len() as int,
                p,
            )]
    }
}

/// A list with the same numbers, each as often, in ascending order.
pub open spec fn is_sorting(samples: Seq<u64>, sorted: Seq<u64>) -> bool {
    &&& sorted.to_multiset() == samples.to_multiset()
    &&& sorted.len() == samples.len()
    &&& forall|i: int, j: int| 0 <= i <= j < sorted.len() ==> sorted[i] <= sorted[j]
}

/// The percentiles of samples, in microseconds.
#[derive(Debug, Clone, Copy, PartialEq, Eq, Structural)]
pub struct Percentiles {
    pub p50: u64,
    pub p95: u64,
    pub p99: u64,
}

/// The percentiles of the samples of an interval.
pub fn percentiles(samples: Vec<u64>) -> (r: Percentiles)
    requires
        samples@.len() <= 0x20_0000_0000_0000,
    ensures
        is_percentile(samples@, Percentile::P50, r.p50),
        is_percentile(samples@, Percentile::P95, r.p95),
        is_percentile(samples@, Percentile::P99, r.p99),
{
    let ghost given = samples@;
    if samples.len() == 0 {
        return Percentiles { p50: 0, p95: 0, p99: 0 };
    }
    let mut sorted: Vec<u64> = samples;
    sort_ascending(&mut sorted);
    assert(is_sorting(given, sorted@));
    Percentiles {
        p50: sorted[percentile_index(sorted.len(), Percentile::P50)],
        p95: sorted[percentile_index(sorted.len(), Percentile::P95)],
        p99: sorted[percentile_index(sorted.len(), Percentile::P99)],
    }
}

/// The latency that is reported: that over HTTP if there is any, or else that of connecting.
pub fn reported_latency(http: u64, connect: u64) -> (r: u64)
    ensures
        r == (if http > 0 {
            http
        } else {
            connect
        }),
{
    if http > 0 {
        http
    } else {
        connect
    }
}

/// The digest of a payload, if it is random.
pub open spec fn random_hash(given: Option<PayloadProfile>, mine: bool, payload: Seq<u8>) -> Option<
    Seq<char>,
> {
    if mine && given is Some && given->0.kind == PayloadKind::Random {
        Some(sha256_text(payload))
    } else {
        None
    }
}

/// The digest of a payload, if it is random and this side made it.
fn hash_of(given: &Option<PayloadProfile>, mine: bool, payload: &Vec<u8>) -> (r: Option<String>)
    ensures
        maybe(r) == random_hash(*given, mine, payload@),
{
    match given {
        Some(profile) => if mine && profile.kind == PayloadKind::Random {
            Some(sha256_hex(payload.as_slice()))
        } else {
            None
        },
        None => None,
    }
}

/// The digests of the random payloads that this side sends: of the request on the side of the
/// client, of the response on the other.
pub fn random_payload_hashes(
    scenario: &Scenario,
    payloads: &PreparedPayloads,
    role: ReplayRole,
) -> (r: (Option<String>, Option<String>))
    ensures
        maybe(r.0) == random_hash(
            scenario.request_payload,
            role == ReplayRole::Client,
            payloads.request@,
        ),
        maybe(r.1) == random_hash(
            scenario.response_payload,
            role == ReplayRole::Server,
            payloads.response@,
        ),
{
    (
        hash_of(&scenario.request_payload, role == ReplayRole::Client, &payloads.request),
        hash_of(&scenario.response_payload, role == ReplayRole::Server, &payloads.response),
    )
}

} // verus!
