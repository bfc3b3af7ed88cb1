//! Graph clock domains: engine rate/quantum presets, device capabilities,
//! profile resolution and the running-rate probes' parsing.
use vstd::prelude::*;

use crate::domain::DeviceNode;
use crate::ordset::{contains_u32};
use crate::text::{concat3, contains, decimal, u32_to_string};

verus! {

// ---------------------------------------------------------------------------
// Power-of-two arithmetic
// ---------------------------------------------------------------------------

/// `n` is a power of two.
pub open spec fn is_pow2(n: nat) -> bool
    decreases n,
{
    if n == 1 {
        true
    } else if n >= 2 && n % 2 == 0 {
        is_pow2(n / 2)
    } else {
        false
    }
}

/// Smallest `p * 2^k` (k ≥ 0) that is at least `n`.
pub open spec fn pow2_up(n: nat, p: nat) -> nat
    decreases (if p >= n { 0 } else { n - p }),
    when p > 0
{
    if p >= n {
        p
    } else {
        pow2_up(n, 2 * p)
    }
}

/// `u32::next_power_of_two` as built for release: the smallest power of two
/// at least `n` (1 for 0), and 0 when that does not fit in `u32`.
pub open spec fn next_pow2_spec(n: u32) -> u32 {
    if n > 0x8000_0000 {
        0
    } else {
        pow2_up(n as nat, 1) as u32
    }
}

proof fn lemma_pow2_up_bound(n: nat, p: nat)
    requires
        p > 0,
        is_pow2(p),
        n <= 0x8000_0000,
        p <= 0x8000_0000,
    ensures
        pow2_up(n, p) <= 0x8000_0000,
        pow2_up(n, p) >= n,
        pow2_up(n, p) >= p,
        is_pow2(pow2_up(n, p)),
    decreases (if p >= n { 0 } else { n - p }),
{
    if p < n {
        assert(is_pow2(2 * p)) by {
            assert((2 * p) / 2 == p);
        }
        assert(2 * p <= 0x8000_0000) by {
            lemma_pow2_le(p, n);
        }
        lemma_pow2_up_bound(n, 2 * p);
    }
}

/// A power of two below `n <= 2^31` is at most `2^30`.
proof fn lemma_pow2_le(p: nat, n: nat)
    requires
        is_pow2(p),
        p < n,
        n <= 0x8000_0000,
    ensures
        2 * p <= 0x8000_0000,
{
    lemma_pow2_gap(p, 0x4000_0000);
}

/// Powers of two above `2^30` are at least `2^31`.
proof fn lemma_pow2_gap(p: nat, q: nat)
    requires
        is_pow2(p),
        q == 0x4000_0000,
    ensures
        p <= q || p >= 2 * q,
{
    lemma_pow2_cases(p, 30);
    assert(pow(30) == 0x4000_0000) by {
        reveal_with_fuel(pow, 31);
    }
}

proof fn lemma_pow_pos(k: nat)
    ensures
        pow(k) >= 1,
    decreases k,
{
    if k > 0 {
        lemma_pow_pos((k - 1) as nat);
    }
}

proof fn lemma_pow2_cases(p: nat, k: nat)
    requires
        is_pow2(p),
        k <= 30,
    ensures
        p <= pow(k) || p >= 2 * pow(k),
    decreases k,
{
    lemma_pow_pos(k);
    if k > 0 && p > 1 {
        lemma_pow2_cases(p / 2, (k - 1) as nat);
    }
}

/// `2^k`.
pub open spec fn pow(k: nat) -> nat
    decreases k,
{
    if k == 0 {
        1
    } else {
        2 * pow((k - 1) as nat)
    }
}

/// `u32::next_power_of_two` (release semantics: 0 on overflow).
pub fn next_pow2(n: u32) -> (r: u32)
    ensures
        r == next_pow2_spec(n),
        n <= 0x8000_0000 ==> is_pow2(r as nat) && r >= n,
{
    if n > 0x8000_0000 {
        return 0;
    }
    let mut p: u32 = 1;
    proof {
        lemma_pow2_up_bound(n as nat, 1);
    }
    while p < n
        invariant
            p > 0,
            is_pow2(p as nat),
            p <= 0x8000_0000,
            n <= 0x8000_0000,
            pow2_up(n as nat, p as nat) == pow2_up(n as nat, 1),
        decreases (if p >= n { 0 } else { n - p }),
    {
        proof {
            lemma_pow2_le(p as nat, n as nat);
            assert(is_pow2((2 * p) as nat)) by {
                assert(((2 * p) as nat) / 2 == p as nat);
            }
        }
        p = p * 2;
    }
    p
}

/// `u32::is_power_of_two`.
pub fn is_power_of_two(n: u32) -> (r: bool)
    ensures
        r == is_pow2(n as nat),
{
    let mut m = n;
    while m >= 2 && m % 2 == 0
        invariant
            is_pow2(n as nat) == is_pow2(m as nat),
        decreases m,
    {
        m = m / 2;
    }
    m == 1
}

// ---------------------------------------------------------------------------
// Presets and capability records
// ---------------------------------------------------------------------------

/// User-facing performance preset.
#[derive(Debug, Clone, Copy, PartialEq, Eq)]
pub enum AudioPreset {
    Balanced,
    LowLatency,
    Stable,
    Custom,
}

impl AudioPreset {
    pub fn label(self) -> (r: &'static str)
        ensures
            r@ == (match self {
                AudioPreset::Balanced => "Balanced"@,
                AudioPreset::LowLatency => "Low latency"@,
                AudioPreset::Stable => "Stable"@,
                AudioPreset::Custom => "Custom"@,
            }),
    {
        match self {
            AudioPreset::Balanced => "Balanced",
            AudioPreset::LowLatency => "Low latency",
            AudioPreset::Stable => "Stable",
            AudioPreset::Custom => "Custom",
        }
    }
}

/// Probed capabilities of the Master HW out (or fallback device).
#[derive(Debug, Clone)]
pub struct DeviceCaps {
    pub sink_name: String,
    pub description: String,
    pub rates: Vec<u32>,
    pub preferred_rate: u32,
    pub min_quantum: u32,
    pub max_quantum: u32,
    pub preferred_quantum: u32,
}

/// Rate accepted by a device: listed, or (with no list) exactly the preferred rate.
pub open spec fn allows_rate_spec(caps: DeviceCaps, rate: u32) -> bool {
    if caps.rates@.len() == 0 {
        rate > 0 && rate == caps.preferred_rate
    } else {
        caps.rates@.contains(rate)
    }
}

/// Quantum accepted by a device: in range and a power of two.
pub open spec fn allows_quantum_spec(caps: DeviceCaps, q: u32) -> bool {
    caps.min_quantum <= q <= caps.max_quantum && is_pow2(q as nat)
}

impl DeviceCaps {
    /// Empty rate list ⇒ only `preferred_rate` (never “any rate”).
    pub fn allows_rate(&self, rate: u32) -> (r: bool)
        ensures
            r == allows_rate_spec(*self, rate),
    {
        if self.rates.len() == 0 {
            return rate > 0 && rate == self.preferred_rate;
        }
        contains_u32(&self.rates, rate)
    }

    pub fn allows_quantum(&self, q: u32) -> (r: bool)
        ensures
            r == allows_quantum_spec(*self, q),
    {
        q >= self.min_quantum && q <= self.max_quantum && is_power_of_two(q)
    }
}

/// Resolved profile applied to BusChain-owned nodes (= session `performance`).
#[derive(Debug, Clone)]
pub struct PerformanceProfile {
    pub preset: AudioPreset,
    pub sample_rate: u32,
    pub quantum: u32,
    pub soft_quantum: bool,
    pub force_suspend_timeout_zero: bool,
    /// Sink this profile was computed for (stale detection).
    pub bound_device: String,
    /// True when we had to clamp away from the ideal / requested target.
    pub device_limited: bool,
}

impl Default for PerformanceProfile {
    fn default() -> (r: Self)
        ensures
            r.preset == AudioPreset::Balanced,
            r.sample_rate == 48_000,
            r.quantum == 256,
            r.soft_quantum,
            r.force_suspend_timeout_zero,
            r.bound_device@.len() == 0,
            !r.device_limited,
    {
        PerformanceProfile {
            preset: AudioPreset::Balanced,
            sample_rate: 48_000,
            quantum: 256,
            soft_quantum: true,
            force_suspend_timeout_zero: true,
            bound_device: String::new(),
            device_limited: false,
        }
    }
}

/// `node.latency` style text `quantum/rate`, e.g. `256/48000`.
pub open spec fn latency_text(quantum: u32, rate: u32) -> Seq<char> {
    decimal(quantum as nat) + "/"@ + decimal(rate as nat)
}

/// `"{quantum}/{rate}"`.
pub fn latency_prop(quantum: u32, rate: u32) -> (r: String)
    ensures
        r@ == latency_text(quantum, rate),
{
    let q = u32_to_string(quantum);
    let s = u32_to_string(rate);
    concat3(q.as_str(), "/", s.as_str())
}

impl PerformanceProfile {
    /// `node.latency` style string, e.g. `"256/48000"`.
    pub fn node_latency_prop(&self) -> (r: String)
        ensures
            r@ == latency_text(self.quantum, self.sample_rate),
    {
        latency_prop(self.quantum, self.sample_rate)
    }

    /// View as the live graph clock (rate and quantum at least 1).
    pub fn graph_clock(&self) -> (r: GraphClock)
        ensures
            r.sample_rate == (if self.sample_rate == 0 { 1 } else { self.sample_rate }),
            r.quantum == (if self.quantum == 0 { 1 } else { self.quantum }),
            r.soft_quantum == self.soft_quantum,
            r.force_suspend_timeout_zero == self.force_suspend_timeout_zero,
            r.bound_device@ == self.bound_device@,
    {
        GraphClock {
            sample_rate: if self.sample_rate == 0 {
                1
            } else {
                self.sample_rate
            },
            quantum: if self.quantum == 0 {
                1
            } else {
                self.quantum
            },
            soft_quantum: self.soft_quantum,
            force_suspend_timeout_zero: self.force_suspend_timeout_zero,
            bound_device: self.bound_device.clone(),
        }
    }
}

/// Active clock for all BusChain-owned nodes.
#[derive(Debug, Clone, PartialEq, Eq)]
pub struct GraphClock {
    pub sample_rate: u32,
    pub quantum: u32,
    pub soft_quantum: bool,
    pub force_suspend_timeout_zero: bool,
    pub bound_device: String,
}

impl Default for GraphClock {
    fn default() -> (r: Self)
        ensures
            r.sample_rate == 48_000,
            r.quantum == 256,
            r.soft_quantum,
            r.force_suspend_timeout_zero,
            r.bound_device@.len() == 0,
    {
        PerformanceProfile::default().graph_clock()
    }
}

impl GraphClock {
    pub fn node_latency_prop(&self) -> (r: String)
        ensures
            r@ == latency_text(self.quantum, self.sample_rate),
    {
        latency_prop(self.quantum, self.sample_rate)
    }
}

/// Native caps of an external (or BusChain) endpoint.
#[derive(Debug, Clone)]
pub struct EndpointCaps {
    pub name: String,
    pub rate: Option<u32>,
    pub channels: Option<u32>,
}

// ---------------------------------------------------------------------------
// Engine rates and quanta
// ---------------------------------------------------------------------------

/// Safe fallback rates when no device is found.
pub open spec fn fallback_rates_spec() -> Seq<u32> {
    seq![48_000u32, 44_100, 96_000, 88_200]
}

/// BusChain engine sample rates (Settings → Audio), up to DXD and 384 kHz.
pub open spec fn engine_rates_spec() -> Seq<u32> {
    seq![44_100u32, 48_000, 88_200, 96_000, 176_400, 192_000, 352_800, 384_000]
}

/// BusChain engine quantum choices (powers of two).
pub open spec fn engine_quantums_spec() -> Seq<u32> {
    seq![64u32, 128, 256, 512, 1024, 2048]
}

/// Rates above this are valid but extreme (CPU / plugin risk).
pub const ENGINE_RATE_WARN_ABOVE: u32 = 192_000;

pub fn fallback_rates() -> (r: Vec<u32>)
    ensures
        r@ == fallback_rates_spec(),
{
    let r = vec![48_000u32, 44_100, 96_000, 88_200];
    assert(r@ =~= fallback_rates_spec());
    r
}

pub fn engine_rates() -> (r: Vec<u32>)
    ensures
        r@ == engine_rates_spec(),
{
    let r = vec![44_100u32, 48_000, 88_200, 96_000, 176_400, 192_000, 352_800, 384_000];
    assert(r@ =~= engine_rates_spec());
    r
}

pub fn engine_quantums() -> (r: Vec<u32>)
    ensures
        r@ == engine_quantums_spec(),
{
    let r = vec![64u32, 128, 256, 512, 1024, 2048];
    assert(r@ =~= engine_quantums_spec());
    r
}

/// True for DXD / 384k-class engine rates (soft warning in Settings).
pub fn engine_rate_is_extreme(rate: u32) -> (r: bool)
    ensures
        r == (rate > 192_000),
{
    rate > ENGINE_RATE_WARN_ABOVE
}

/// `|a - b|`.
pub open spec fn dist(a: u32, b: u32) -> int {
    if a >= b {
        a - b
    } else {
        b - a
    }
}

/// First element of `s[..k]` at least distance from `x` (`min_by_key` keeps the first).
pub open spec fn nearest_upto(s: Seq<u32>, x: u32, k: nat) -> u32
    decreases k,
{
    if k <= 1 {
        s[0]
    } else {
        let b = nearest_upto(s, x, (k - 1) as nat);
        if dist(s[k - 1], x) < dist(b, x) {
            s[k - 1]
        } else {
            b
        }
    }
}

/// First element of a non-empty `s` nearest to `x`.
pub open spec fn nearest(s: Seq<u32>, x: u32) -> u32 {
    nearest_upto(s, x, s.len())
}

proof fn lemma_nearest_in(s: Seq<u32>, x: u32, k: nat)
    requires
        1 <= k <= s.len(),
    ensures
        s.take(k as int).contains(nearest_upto(s, x, k)),
        forall|j: int| 0 <= j < k ==> dist(nearest_upto(s, x, k), x) <= dist(s[j], x),
    decreases k,
{
    if k > 1 {
        lemma_nearest_in(s, x, (k - 1) as nat);
        let b = nearest_upto(s, x, (k - 1) as nat);
        assert(s.take(k - 1).contains(b));
        let i = choose|i: int| 0 <= i < k - 1 && #[trigger] s.take(k - 1)[i] == b;
        assert(s.take(k as int)[i] == b);
        assert(s.take(k as int)[k - 1] == s[k - 1]);
    } else {
        assert(s.take(1)[0] == s[0]);
    }
}

/// First element of `v` nearest to `x` (`iter().min_by_key(|c| x.abs_diff(c))`).
pub fn nearest_of(v: &[u32], x: u32) -> (r: u32)
    requires
        v@.len() > 0,
    ensures
        r == nearest(v@, x),
        v@.contains(r),
        forall|j: int| 0 <= j < v@.len() ==> dist(r, x) <= dist(v@[j], x),
{
    let mut best = v[0];
    let mut i: usize = 1;
    while i < v.len()
        invariant
            1 <= i <= v.len(),
            best == nearest_upto(v@, x, i as nat),
        decreases v.len() - i,
    {
        let c = v[i];
        let dc = if c >= x {
            c - x
        } else {
            x - c
        };
        let db = if best >= x {
            best - x
        } else {
            x - best
        };
        if dc < db {
            best = c;
        }
        i += 1;
    }
    proof {
        lemma_nearest_in(v@, x, v@.len());
        assert(v@.take(v@.len() as int) =~= v@);
    }
    best
}

/// Nearest engine rate.
pub open spec fn snap_engine_rate_spec(rate: u32) -> u32 {
    nearest(engine_rates_spec(), rate)
}

/// Power of two at least `max(q, 1)`, then the nearest engine quantum.
pub open spec fn snap_engine_quantum_spec(q: u32) -> u32 {
    nearest(engine_quantums_spec(), next_pow2_spec(if q == 0 { 1 } else { q }))
}

pub fn snap_engine_rate(rate: u32) -> (r: u32)
    ensures
        r == snap_engine_rate_spec(rate),
        engine_rates_spec().contains(r),
{
    let rates = engine_rates();
    nearest_of(&rates, rate)
}

pub fn snap_engine_quantum(q: u32) -> (r: u32)
    ensures
        r == snap_engine_quantum_spec(q),
        engine_quantums_spec().contains(r),
{
    let p = next_pow2(if q == 0 {
        1
    } else {
        q
    });
    let qs = engine_quantums();
    nearest_of(&qs, p)
}

/// The engine profile a preset (and Custom request) resolves to.
pub open spec fn engine_rate_for(preset: AudioPreset, custom_rate: Option<u32>) -> u32 {
    match preset {
        AudioPreset::Custom => match custom_rate {
            Some(r) => if engine_rates_spec().contains(r) {
                r
            } else {
                snap_engine_rate_spec(r)
            },
            None => 48_000,
        },
        _ => 48_000,
    }
}

pub open spec fn engine_quantum_for(preset: AudioPreset, custom_quantum: Option<u32>) -> u32 {
    match preset {
        AudioPreset::Balanced => 256,
        AudioPreset::LowLatency => 64,
        AudioPreset::Stable => 512,
        AudioPreset::Custom => match custom_quantum {
            Some(q) => if engine_quantums_spec().contains(q) {
                q
            } else {
                snap_engine_quantum_spec(q)
            },
            None => 256,
        },
    }
}

/// A catalogued engine rate.
fn engine_allows_rate(rate: u32) -> (r: bool)
    ensures
        r == engine_rates_spec().contains(rate),
{
    let rates = engine_rates();
    contains_u32(&rates, rate)
}

/// A catalogued engine quantum.
fn engine_allows_quantum(q: u32) -> (r: bool)
    ensures
        r == engine_quantums_spec().contains(q),
{
    let qs = engine_quantums();
    contains_u32(&qs, q)
}

/// Resolve the BusChain engine profile (independent of Master HW capabilities).
pub fn resolve_engine_profile(
    preset: AudioPreset,
    custom_rate: Option<u32>,
    custom_quantum: Option<u32>,
    soft_quantum: bool,
) -> (r: PerformanceProfile)
    ensures
        r.preset == preset,
        r.sample_rate == engine_rate_for(preset, custom_rate),
        r.quantum == engine_quantum_for(preset, custom_quantum),
        r.soft_quantum == soft_quantum,
        r.force_suspend_timeout_zero,
        r.bound_device@.len() == 0,
        !r.device_limited,
{
    let (rate, quantum): (u32, u32) = match preset {
        AudioPreset::Balanced => (48_000, 256),
        AudioPreset::LowLatency => (48_000, 64),
        AudioPreset::Stable => (48_000, 512),
        AudioPreset::Custom => {
            let rate: u32 = match custom_rate {
                Some(r) => if engine_allows_rate(r) {
                    r
                } else {
                    snap_engine_rate(r)
                },
                None => 48_000,
            };
            let quantum: u32 = match custom_quantum {
                Some(q) => if engine_allows_quantum(q) {
                    q
                } else {
                    snap_engine_quantum(q)
                },
                None => 256,
            };
            (rate, quantum)
        },
    };
    proof {
        reveal_with_fuel(nearest_upto, 9);
        assert(engine_rates_spec().contains(rate) ==> rate > 0);
        assert(engine_quantums_spec().contains(quantum) ==> quantum > 0);
    }
    PerformanceProfile {
        preset,
        sample_rate: rate,
        quantum,
        soft_quantum,
        force_suspend_timeout_zero: true,
        bound_device: String::new(),
        device_limited: false,
    }
}

/// Every Custom request resolves to a catalogued engine rate and quantum.
pub proof fn law_engine_profile_in_catalog(
    preset: AudioPreset,
    custom_rate: Option<u32>,
    custom_quantum: Option<u32>,
)
    ensures
        engine_rates_spec().contains(engine_rate_for(preset, custom_rate)),
        engine_quantums_spec().contains(engine_quantum_for(preset, custom_quantum)),
{
    assert(engine_rates_spec()[1] == 48_000);
    assert(engine_quantums_spec()[0] == 64);
    assert(engine_quantums_spec()[2] == 256);
    assert(engine_quantums_spec()[3] == 512);
    match custom_rate {
        Some(r) => {
            if !engine_rates_spec().contains(r) {
                lemma_nearest_in(engine_rates_spec(), r, 8);
                assert(engine_rates_spec().take(8) =~= engine_rates_spec());
            }
        },
        None => {},
    }
    match custom_quantum {
        Some(q) => {
            if !engine_quantums_spec().contains(q) {
                let p = next_pow2_spec(if q == 0 { 1 } else { q });
                lemma_nearest_in(engine_quantums_spec(), p, 6);
                assert(engine_quantums_spec().take(6) =~= engine_quantums_spec());
            }
        },
        None => {},
    }
}

// ---------------------------------------------------------------------------
// Clock mutation window
// ---------------------------------------------------------------------------

/// Deadline (monotonic milliseconds) until which buses are mid-migrate.
#[derive(Debug, Clone, Copy)]
pub struct ClockMutation {
    pub until_ms: Option<u64>,
}

impl ClockMutation {
    pub fn new() -> (r: Self)
        ensures
            r.until_ms is None,
    {
        ClockMutation { until_ms: None }
    }
}

/// Hold the mutation window open until at least `now + hold` (never shortens it).
pub fn mark_clock_mutation(state: &mut ClockMutation, now_ms: u64, hold_ms: u64)
    ensures
        final(state).until_ms == Some(
            match old(state).until_ms {
                Some(prev) => if prev >= now_ms.saturating_add(hold_ms) {
                    prev
                } else {
                    now_ms.saturating_add(hold_ms)
                },
                None => now_ms.saturating_add(hold_ms),
            },
        ),
{
    let until = now_ms.saturating_add(hold_ms);
    state.until_ms = Some(
        match state.until_ms {
            Some(prev) => if prev >= until {
                prev
            } else {
                until
            },
            None => until,
        },
    );
}

/// Whether a clock mutation window is open at `now`.
pub fn clock_mutation_in_flight(state: &ClockMutation, now_ms: u64) -> (r: bool)
    ensures
        r == (match state.until_ms {
            Some(u) => now_ms < u,
            None => false,
        }),
{
    match state.until_ms {
        Some(u) => now_ms < u,
        None => false,
    }
}

pub fn clear_clock_mutation(state: &mut ClockMutation)
    ensures
        final(state).until_ms is None,
{
    state.until_ms = None;
}

/// A marked window is open at the moment it is marked (for a positive hold
/// that does not overflow), and a cleared one is closed at every moment.
pub proof fn law_clock_mutation_window(prev: Option<u64>, now_ms: u64, hold_ms: u64, later: u64)
    requires
        hold_ms > 0,
        now_ms + hold_ms <= u64::MAX,
    ensures
        ({
            let marked = Some(
                match prev {
                    Some(p) => if p >= now_ms + hold_ms {
                        p
                    } else {
                        (now_ms + hold_ms) as u64
                    },
                    None => (now_ms + hold_ms) as u64,
                },
            );
            match marked {
                Some(u) => now_ms < u,
                None => false,
            }
        }),
{
}

// ---------------------------------------------------------------------------
// Quantum budget and device profile resolution
// ---------------------------------------------------------------------------

/// Double `q` while the double stays within both `max_q` and `bound`.
pub open spec fn grow(q: nat, max_q: nat, bound: nat) -> nat
    decreases max_q - q,
    when q > 0
{
    if 2 * q <= max_q && 2 * q <= bound {
        grow(2 * q, max_q, bound)
    } else {
        q
    }
}

/// Halve `q` until it is at most `max_q`.
pub open spec fn shrink(q: nat, max_q: nat) -> nat
    decreases q,
{
    if q > max_q && q > 0 {
        shrink(q / 2, max_q)
    } else {
        q
    }
}

/// `v` clamped into `[lo, hi]`.
pub open spec fn clamp(v: u32, lo: u32, hi: u32) -> u32 {
    if v < lo {
        lo
    } else if v > hi {
        hi
    } else {
        v
    }
}

/// Largest power-of-two quantum at most ~6 ms at `rate` (rounded to the nearest
/// sample), then grown while it stays within 8 ms and `max_q`, kept in
/// `[min_q, max_q]`; 256 for an unknown (zero) rate.
pub open spec fn budget_quantum(rate: u32, min_q: u32, max_q: u32) -> u32 {
    if rate == 0 {
        256
    } else {
        let ideal = ((rate * 6 + 500) / 1000) as u32;
        let q0 = next_pow2_spec(ideal) / 2;
        let q1 = if q0 < min_q {
            min_q
        } else {
            q0
        };
        let max_samples = (rate * 8 / 1000) as u32;
        let bound = if max_samples >= min_q {
            max_samples
        } else {
            min_q
        };
        let q2 = if q1 > 0 {
            grow(q1 as nat, max_q as nat, bound as nat)
        } else {
            q1 as nat
        };
        let q3 = shrink(q2, max_q as nat) as u32;
        let q4 = next_pow2_spec(clamp(q3, min_q, max_q));
        let q5 = if q4 > max_q {
            max_q
        } else {
            q4
        };
        if q5 < min_q {
            min_q
        } else {
            q5
        }
    }
}

proof fn lemma_grow_bound(q: nat, max_q: nat, bound: nat)
    requires
        q > 0,
    ensures
        grow(q, max_q, bound) >= q,
        q <= max_q ==> grow(q, max_q, bound) <= max_q,
    decreases max_q - q,
{
    if 2 * q <= max_q && 2 * q <= bound {
        lemma_grow_bound(2 * q, max_q, bound);
    }
}

proof fn lemma_shrink_bound(q: nat, max_q: nat)
    ensures
        shrink(q, max_q) <= q,
        shrink(q, max_q) <= max_q || shrink(q, max_q) == 0,
    decreases q,
{
    if q > max_q && q > 0 {
        lemma_shrink_bound(q / 2, max_q);
    }
}

/// Quantum for a ~6 ms budget at `rate` within `[min_q, max_q]`.
pub fn quantum_for_budget(rate: u32, min_q: u32, max_q: u32) -> (r: u32)
    requires
        min_q <= max_q,
        max_q < 0x8000_0000,
    ensures
        r == budget_quantum(rate, min_q, max_q),
        min_q <= r <= max_q || rate == 0,
{
    if rate == 0 {
        return 256;
    }
    let ideal: u32 = ((rate as u64 * 6 + 500) / 1000) as u32;
    let mut q = next_pow2(ideal) / 2;
    if q < min_q {
        q = min_q;
    }
    let max_samples: u32 = (rate as u64 * 8 / 1000) as u32;
    let bound = if max_samples >= min_q {
        max_samples
    } else {
        min_q
    };
    assert(q < 0x8000_0000);
    let ghost q1 = q;
    if q > 0 {
        proof {
            lemma_grow_bound(q as nat, max_q as nat, bound as nat);
        }
    }
    while q > 0 && q * 2 <= max_q && q * 2 <= bound
        invariant
            q < 0x8000_0000,
            max_q < 0x8000_0000,
            q1 > 0 ==> q > 0,
            q1 > 0 ==> grow(q as nat, max_q as nat, bound as nat) == grow(
                q1 as nat,
                max_q as nat,
                bound as nat,
            ),
            q1 == 0 ==> q == 0,
        decreases max_q - q,
    {
        q = q * 2;
    }
    let ghost q2: nat = if q1 > 0 {
        grow(q1 as nat, max_q as nat, bound as nat)
    } else {
        q1 as nat
    };
    assert(q == q2);
    while q > max_q
        invariant
            shrink(q as nat, max_q as nat) == shrink(q2, max_q as nat),
        decreases q,
    {
        q = q / 2;
    }
    proof {
        lemma_shrink_bound(q2, max_q as nat);
    }
    let c = if q < min_q {
        min_q
    } else if q > max_q {
        max_q
    } else {
        q
    };
    let p = next_pow2(c);
    let q5 = if p > max_q {
        max_q
    } else {
        p
    };
    if q5 < min_q {
        min_q
    } else {
        q5
    }
}

proof fn lemma_pow2_up_half(n: nat, p: nat)
    requires
        p > 0,
    ensures
        pow2_up(n, p) == p || pow2_up(n, p) / 2 < n,
    decreases (if p >= n { 0 } else { n - p }),
{
    if p < n {
        lemma_pow2_up_half(n, 2 * p);
    }
}

proof fn lemma_pow2_half(x: nat)
    requires
        is_pow2(x),
        x >= 2,
    ensures
        is_pow2(x / 2),
        x == 2 * (x / 2),
{
}

proof fn lemma_pow2_double(p: nat)
    requires
        is_pow2(p),
    ensures
        is_pow2(2 * p),
{
    assert((2 * p) / 2 == p);
}

proof fn lemma_pow2_pos(x: nat)
    requires
        is_pow2(x),
    ensures
        x >= 1,
    decreases x,
{
    if x >= 2 {
        lemma_pow2_pos(x / 2);
    }
}

/// Between two powers of two `p < x` there is room for `2p`.
proof fn lemma_pow2_step(p: nat, x: nat)
    requires
        is_pow2(p),
        is_pow2(x),
        p < x,
    ensures
        2 * p <= x,
    decreases x,
{
    lemma_pow2_pos(p);
    if p >= 2 {
        lemma_pow2_half(p);
        lemma_pow2_half(x);
        lemma_pow2_step(p / 2, x / 2);
    } else {
        assert(x >= 2);
    }
}

proof fn lemma_pow2_up_exact(x: nat, p: nat)
    requires
        is_pow2(p),
        is_pow2(x),
        p <= x,
    ensures
        pow2_up(x, p) == x,
    decreases x - p,
{
    lemma_pow2_pos(p);
    if p < x {
        lemma_pow2_step(p, x);
        lemma_pow2_double(p);
        lemma_pow2_up_exact(x, 2 * p);
    }
}

proof fn lemma_grow_pow2(q: nat, max_q: nat, bound: nat)
    requires
        q > 0,
        is_pow2(q),
    ensures
        is_pow2(grow(q, max_q, bound)),
        grow(q, max_q, bound) == q || grow(q, max_q, bound) <= bound,
    decreases max_q - q,
{
    if 2 * q <= max_q && 2 * q <= bound {
        lemma_pow2_double(q);
        lemma_grow_pow2(2 * q, max_q, bound);
    }
}

proof fn lemma_shrink_pow2(q: nat, max_q: nat)
    requires
        is_pow2(q),
        max_q >= 1,
    ensures
        is_pow2(shrink(q, max_q)),
        shrink(q, max_q) <= q,
        shrink(q, max_q) <= max_q,
    decreases q,
{
    lemma_pow2_pos(q);
    if q > max_q {
        lemma_pow2_half(q);
        lemma_shrink_pow2(q / 2, max_q);
    }
}

proof fn lemma_shrink_above(q: nat, max_q: nat)
    requires
        is_pow2(q),
        q > max_q,
        max_q >= 1,
    ensures
        2 * shrink(q, max_q) > max_q,
    decreases q,
{
    lemma_pow2_half(q);
    if q / 2 > max_q {
        lemma_shrink_above(q / 2, max_q);
    }
}

proof fn lemma_ideal_within_8ms(rate: u32)
    requires
        rate >= 1000,
    ensures
        (rate * 6 + 500) / 1000 <= rate * 8 / 1000,
        (rate * 6 + 500) / 1000 >= 6,
{
    assert((rate * 6 + 500) / 1000 <= rate * 8 / 1000) by (nonlinear_arith)
        requires
            rate >= 1000,
    ;
    assert((rate * 6 + 500) / 1000 >= 6) by (nonlinear_arith)
        requires
            rate >= 1000,
    ;
}

/// The budget quantum stays within the 8 ms cap: for a known rate (1 kHz or
/// more) and a power-of-two minimum, the quantum is a power of two within
/// `[min_q, max_q]` and never above the number of samples in 8 ms at that
/// rate, unless the minimum itself is larger (48 kHz in [64, 2048] gives at
/// most 384 samples, so 256). Growing the quantum is bounded by the 8 ms cap,
/// not by `max_q` alone.
pub proof fn law_budget_quantum_within_8ms(rate: u32, min_q: u32, max_q: u32)
    requires
        rate >= 1000,
        is_pow2(min_q as nat),
        min_q <= max_q,
        max_q < 0x8000_0000,
    ensures
        budget_quantum(rate, min_q, max_q) <= (if rate * 8 / 1000 >= min_q {
            rate * 8 / 1000
        } else {
            min_q as int
        }),
        min_q <= budget_quantum(rate, min_q, max_q) <= max_q,
        is_pow2(budget_quantum(rate, min_q, max_q) as nat),
        budget_quantum(rate, min_q, max_q) >= (rate * 6 + 500) / 1000 / 2 || 2 * budget_quantum(
            rate,
            min_q,
            max_q,
        ) > max_q,
{
    lemma_ideal_within_8ms(rate);
    lemma_pow2_pos(min_q as nat);
    let ideal = ((rate * 6 + 500) / 1000) as u32;
    let big_r = pow2_up(ideal as nat, 1);
    lemma_pow2_up_bound(ideal as nat, 1);
    lemma_pow2_up_half(ideal as nat, 1);
    assert(next_pow2_spec(ideal) == big_r as u32);
    let q0 = next_pow2_spec(ideal) / 2;
    assert(big_r >= 6);
    lemma_pow2_half(big_r);
    assert(q0 == big_r / 2);
    assert(q0 <= ideal);
    lemma_pow2_pos((big_r / 2) as nat);
    let q1 = if q0 < min_q {
        min_q
    } else {
        q0
    };
    let max_samples = (rate * 8 / 1000) as u32;
    let bound = if max_samples >= min_q {
        max_samples
    } else {
        min_q
    };
    assert(q1 <= bound);
    assert(is_pow2(q1 as nat));
    lemma_pow2_pos(q1 as nat);
    let q2 = grow(q1 as nat, max_q as nat, bound as nat);
    lemma_grow_pow2(q1 as nat, max_q as nat, bound as nat);
    assert(q2 <= bound);
    lemma_shrink_pow2(q2, max_q as nat);
    lemma_grow_bound(q1 as nat, max_q as nat, bound as nat);
    if q2 > max_q {
        lemma_shrink_above(q2, max_q as nat);
    }
    let q3 = shrink(q2, max_q as nat) as u32;
    let c = clamp(q3, min_q, max_q);
    assert(is_pow2(c as nat));
    assert(c <= bound);
    lemma_pow2_up_exact(c as nat, 1);
    assert(next_pow2_spec(c) == c);
}

/// Rate a non-Custom preset picks: the preferred rate when allowed, else the
/// first allowed fallback rate, else the first listed rate, else 48 kHz.
pub open spec fn pick_rate_spec(caps: DeviceCaps) -> u32 {
    if caps.preferred_rate > 0 && allows_rate_spec(caps, caps.preferred_rate) {
        caps.preferred_rate
    } else if allows_rate_spec(caps, 48_000) {
        48_000
    } else if allows_rate_spec(caps, 44_100) {
        44_100
    } else if allows_rate_spec(caps, 96_000) {
        96_000
    } else if allows_rate_spec(caps, 88_200) {
        88_200
    } else if caps.rates@.len() > 0 {
        caps.rates@[0]
    } else {
        48_000
    }
}

pub fn pick_rate(caps: &DeviceCaps) -> (r: u32)
    ensures
        r == pick_rate_spec(*caps),
{
    if caps.preferred_rate > 0 && caps.allows_rate(caps.preferred_rate) {
        return caps.preferred_rate;
    }
    if caps.allows_rate(48_000) {
        return 48_000;
    }
    if caps.allows_rate(44_100) {
        return 44_100;
    }
    if caps.allows_rate(96_000) {
        return 96_000;
    }
    if caps.allows_rate(88_200) {
        return 88_200;
    }
    if caps.rates.len() > 0 {
        caps.rates[0]
    } else {
        48_000
    }
}

/// Rate a preset resolves to against device capabilities.
pub open spec fn profile_rate(preset: AudioPreset, caps: DeviceCaps, custom_rate: Option<u32>) -> u32 {
    match preset {
        AudioPreset::Custom => match custom_rate {
            Some(r) => if allows_rate_spec(caps, r) {
                r
            } else if caps.preferred_rate == 0 {
                1
            } else {
                caps.preferred_rate
            },
            None => if caps.preferred_rate == 0 {
                1
            } else {
                caps.preferred_rate
            },
        },
        _ => pick_rate_spec(caps),
    }
}

/// Quantum and device-limited flag a preset resolves to at `rate`.
pub open spec fn profile_quantum(
    preset: AudioPreset,
    caps: DeviceCaps,
    rate: u32,
    custom_rate: Option<u32>,
    custom_quantum: Option<u32>,
) -> (u32, bool) {
    let bal = budget_quantum(rate, caps.min_quantum, caps.max_quantum);
    match preset {
        AudioPreset::Balanced => {
            let q = clamp(bal, caps.min_quantum, caps.max_quantum);
            (q, q != bal || rate != 48_000)
        },
        AudioPreset::LowLatency => {
            let half = bal / 2;
            let want = next_pow2_spec(
                if half >= caps.min_quantum {
                    half
                } else {
                    caps.min_quantum
                },
            );
            let q = clamp(want, caps.min_quantum, caps.max_quantum);
            (q, q > want || (q == caps.min_quantum && want < caps.min_quantum))
        },
        AudioPreset::Stable => {
            let dbl = (2 * bal) as u32;
            let want = next_pow2_spec(
                if dbl <= caps.max_quantum {
                    dbl
                } else {
                    caps.max_quantum
                },
            );
            (clamp(want, caps.min_quantum, caps.max_quantum), false)
        },
        AudioPreset::Custom => {
            let want_rate = match custom_rate {
                Some(r) => r,
                None => rate,
            };
            let want_q = match custom_quantum {
                Some(q) => q,
                None => caps.preferred_quantum,
            };
            let q = match custom_quantum {
                Some(cq) => if allows_quantum_spec(caps, cq) {
                    cq
                } else {
                    caps.preferred_quantum
                },
                None => caps.preferred_quantum,
            };
            (q, (custom_rate is Some && want_rate != rate) || (custom_quantum is Some && want_q
                != q))
        },
    }
}

/// Resolve a preset against probed device capabilities.
pub fn resolve_profile(
    preset: AudioPreset,
    caps: &DeviceCaps,
    custom_rate: Option<u32>,
    custom_quantum: Option<u32>,
    soft_quantum: bool,
) -> (r: PerformanceProfile)
    requires
        !(preset is Custom) ==> caps.min_quantum <= caps.max_quantum && caps.max_quantum < 0x8000_0000,
    ensures
        r.preset == preset,
        r.sample_rate == (if profile_rate(preset, *caps, custom_rate) == 0 {
            1
        } else {
            profile_rate(preset, *caps, custom_rate)
        }),
        r.quantum == ({
            let q = profile_quantum(
                preset,
                *caps,
                profile_rate(preset, *caps, custom_rate),
                custom_rate,
                custom_quantum,
            ).0;
            if q == 0 {
                1
            } else {
                q
            }
        }),
        r.device_limited == profile_quantum(
            preset,
            *caps,
            profile_rate(preset, *caps, custom_rate),
            custom_rate,
            custom_quantum,
        ).1,
        r.soft_quantum == soft_quantum,
        r.force_suspend_timeout_zero,
        r.bound_device@ == caps.sink_name@,
{
    let pref = if caps.preferred_rate == 0 {
        1
    } else {
        caps.preferred_rate
    };
    let rate = match preset {
        AudioPreset::Custom => match custom_rate {
            Some(r) => if caps.allows_rate(r) {
                r
            } else {
                pref
            },
            None => pref,
        },
        _ => pick_rate(caps),
    };
    let min_q = caps.min_quantum;
    let max_q = caps.max_quantum;
    let clampq = |v: u32| -> (c: u32)
        ensures
            c == clamp(v, min_q, max_q),
        {
            if v < min_q {
                min_q
            } else if v > max_q {
                max_q
            } else {
                v
            }
        };
    let (quantum, device_limited): (u32, bool) = match preset {
        AudioPreset::Balanced => {
            let ideal = quantum_for_budget(rate, min_q, max_q);
            let q = clampq(ideal);
            (q, q != ideal || rate != 48_000)
        },
        AudioPreset::LowLatency => {
            let bal = quantum_for_budget(rate, min_q, max_q);
            let half = bal / 2;
            let want = next_pow2(
                if half >= min_q {
                    half
                } else {
                    min_q
                },
            );
            let q = clampq(want);
            (q, q > want || (q == min_q && want < min_q))
        },
        AudioPreset::Stable => {
            let bal = quantum_for_budget(rate, min_q, max_q);
            assert(bal <= 0x8000_0000);
            let dbl: u32 = if bal <= 0x7fff_ffff {
                bal * 2
            } else {
                (bal as u64 * 2) as u32
            };
            let want = next_pow2(
                if dbl <= max_q {
                    dbl
                } else {
                    max_q
                },
            );
            (clampq(want), false)
        },
        AudioPreset::Custom => {
            let want_rate = match custom_rate {
                Some(r) => r,
                None => rate,
            };
            let want_q = match custom_quantum {
                Some(q) => q,
                None => caps.preferred_quantum,
            };
            let q = match custom_quantum {
                Some(cq) => if caps.allows_quantum(cq) {
                    cq
                } else {
                    caps.preferred_quantum
                },
                None => caps.preferred_quantum,
            };
            (q, (custom_rate.is_some() && want_rate != rate) || (custom_quantum.is_some() && want_q
                != q))
        },
    };
    PerformanceProfile {
        preset,
        sample_rate: if rate == 0 {
            1
        } else {
            rate
        },
        quantum: if quantum == 0 {
            1
        } else {
            quantum
        },
        soft_quantum,
        force_suspend_timeout_zero: true,
        bound_device: caps.sink_name.clone(),
        device_limited,
    }
}

} // verus!
