use vstd::prelude::*;

use crate::history::{HistoryStore, HISTORY_CAPACITY};
use crate::metrics::MetricSample;

verus! {

/// Time between two samples, in milliseconds.
pub const SAMPLE_PERIOD_MS: u64 = 200;

/// Display values are fixed point: this many units make one display unit.
pub const DISPLAY_SCALE: u64 = 1_000_000;

/// Headroom above a flat series, in millionths of a display unit.
pub const FLAT_HEADROOM: u64 = 10_000_000;

/// The field of a sample that a chart shows.
#[derive(Clone, Copy, Debug, PartialEq, Eq, Structural)]
pub enum MetricKey {
    CpuUsage,
    CpuFreq,
    GpuUsage,
    GpuFreq,
    NpuUsage,
    NpuFreq,
    RgaUsage,
    RgaAclkFreq,
    RgaCoreFreq,
    RgaHclkFreq,
    MemoryUsage,
    SwapUsage,
    Temperature,
    FanState,
}

/// The value of `key` in `m` in its display unit (percent, MHz, degrees
/// Celsius or a plain count), in millionths of that unit.  Usage fields are
/// already millionths of a percent; a frequency in Hz is the same number of
/// millionths of a MHz; millidegrees take a factor of a thousand.
pub open spec fn display_micros(m: MetricSample, key: MetricKey) -> nat {
    match key {
        MetricKey::CpuUsage => m.cpu_usage as nat,
        MetricKey::CpuFreq => m.cpu_freq as nat,
        MetricKey::GpuUsage => m.gpu_usage as nat,
        MetricKey::GpuFreq => m.gpu_freq as nat,
        MetricKey::NpuUsage => m.npu_usage as nat,
        MetricKey::NpuFreq => m.npu_freq as nat,
        MetricKey::RgaUsage => m.rga_usage as nat,
        MetricKey::RgaAclkFreq => m.rga_aclk_freq as nat,
        MetricKey::RgaCoreFreq => m.rga_core_freq as nat,
        MetricKey::RgaHclkFreq => m.rga_hclk_freq as nat,
        MetricKey::MemoryUsage => m.memory_usage as nat,
        MetricKey::SwapUsage => m.swap_usage as nat,
        MetricKey::Temperature => m.temperature as nat * 1000,
        MetricKey::FanState => m.fan_state as nat * (DISPLAY_SCALE as nat),
    }
}

/// Display values of `key` along a history, oldest first.
pub open spec fn values_of(h: Seq<MetricSample>, key: MetricKey) -> Seq<nat> {
    h.map_values(|m: MetricSample| display_micros(m, key))
}

/// Chart points of `key` along a history: the sample at position `i` stands
/// at `i` sampling periods (in milliseconds) on the time axis.
pub open spec fn series_of(h: Seq<MetricSample>, key: MetricKey) -> Seq<(u64, u64)> {
    Seq::new(h.len(), |i: int| ((i * SAMPLE_PERIOD_MS) as u64, display_micros(h[i], key) as u64))
}

pub open spec fn seq_min(v: Seq<nat>) -> nat
    decreases v.len(),
{
    if v.len() <= 1 {
        if v.len() == 1 { v[0] } else { 0 }
    } else if v.last() < seq_min(v.drop_last()) {
        v.last()
    } else {
        seq_min(v.drop_last())
    }
}

pub open spec fn seq_max(v: Seq<nat>) -> nat
    decreases v.len(),
{
    if v.len() <= 1 {
        if v.len() == 1 { v[0] } else { 0 }
    } else if v.last() > seq_max(v.drop_last()) {
        v.last()
    } else {
        seq_max(v.drop_last())
    }
}

/// Value-axis range for `v`: a flat (or empty) series gets `[0, max + 10]`;
/// otherwise a tenth of the spread is added on both sides, and the lower end
/// does not go below zero.  Padding is rounded down to a millionth.
pub open spec fn axis_bounds(v: Seq<nat>) -> (nat, nat) {
    let lo = seq_min(v);
    let hi = seq_max(v);
    if lo == hi {
        (0, hi + FLAT_HEADROOM as nat)
    } else {
        let pad = (hi - lo) as nat / 10;
        (if lo >= pad { (lo - pad) as nat } else { 0 }, hi + pad)
    }
}

/// The display value of `key` in `m`, in millionths of its display unit.
pub fn display_value(m: &MetricSample, key: MetricKey) -> (r: u64)
    ensures
        r == display_micros(*m, key),
{
    match key {
        MetricKey::CpuUsage => m.cpu_usage,
        MetricKey::CpuFreq => m.cpu_freq,
        MetricKey::GpuUsage => m.gpu_usage,
        MetricKey::GpuFreq => m.gpu_freq,
        MetricKey::NpuUsage => m.npu_usage,
        MetricKey::NpuFreq => m.npu_freq,
        MetricKey::RgaUsage => m.rga_usage,
        MetricKey::RgaAclkFreq => m.rga_aclk_freq,
        MetricKey::RgaCoreFreq => m.rga_core_freq,
        MetricKey::RgaHclkFreq => m.rga_hclk_freq,
        MetricKey::MemoryUsage => m.memory_usage,
        MetricKey::SwapUsage => m.swap_usage,
        MetricKey::Temperature => m.temperature as u64 * 1000,
        MetricKey::FanState => m.fan_state as u64 * DISPLAY_SCALE,
    }
}

/// Maps the history to the chart series of `key` and its value-axis bounds,
/// both in millionths of the display unit.
pub fn project(history: &HistoryStore, key: MetricKey) -> (r: (Vec<(u64, u64)>, (u128, u128)))
    requires
        history.wf(),
    ensures
        r.0@ == series_of(history@, key),
        r.1.0 == axis_bounds(values_of(history@, key)).0,
        r.1.1 == axis_bounds(values_of(history@, key)).1,
{
    let n = history.len();
    let ghost vals = values_of(history@, key);
    let mut data: Vec<(u64, u64)> = Vec::new();
    let mut min_val: u64 = 0;
    let mut max_val: u64 = 0;
    let mut i: usize = 0;
    while i < n
        invariant
            n == history@.len() <= HISTORY_CAPACITY,
            history.wf(),
            vals == values_of(history@, key),
            i <= n,
            data@ == series_of(history@, key).take(i as int),
            min_val == seq_min(vals.take(i as int)),
            max_val == seq_max(vals.take(i as int)),
        decreases n - i,
    {
        let m = history.get(i);
        let value = display_value(&m, key);
        data.push(((i as u64) * SAMPLE_PERIOD_MS, value));
        assert(vals.take(i as int + 1).drop_last() =~= vals.take(i as int));
        assert(vals.take(i as int + 1).last() == value);
        if i == 0 || value < min_val {
            min_val = value;
        }
        if i == 0 || value > max_val {
            max_val = value;
        }
        i = i + 1;
        assert(data@ =~= series_of(history@, key).take(i as int));
    }
    assert(vals.take(n as int) =~= vals);
    let bounds = if max_val == min_val {
        (0u128, max_val as u128 + FLAT_HEADROOM as u128)
    } else {
        let padding = (max_val - min_val) / 10;
        (if min_val >= padding { (min_val - padding) as u128 } else { 0u128 }, max_val as u128 + padding as u128)
    };
    (data, bounds)
}

/// A series whose values are all `c` (an empty one counts, with `c` zero)
/// gets the bounds `[0, c + 10]`.
pub proof fn lemma_flat_bounds(v: Seq<nat>, c: nat)
    requires
        forall|i: int| 0 <= i < v.len() ==> v[i] == c,
        v.len() == 0 ==> c == 0,
    ensures
        axis_bounds(v) == (0nat, c + FLAT_HEADROOM as nat),
    decreases v.len(),
{
    if v.len() > 1 {
        lemma_flat_bounds(v.drop_last(), c);
    }
}

} // verus!
