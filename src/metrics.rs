use vstd::prelude::*;

use crate::sensors::{
    counter_of, cpu_freq_of, cpu_times_of, cpu_usage, get_cpu_frequency, get_fan_state,
    get_gpu_frequency, get_gpu_usage, get_memory_info, get_npu_frequency, get_npu_usage,
    get_rga_frequencies, get_rga_usage, get_temperature, load_scan, memory_totals_of, or_zero,
    parse_cpu_stats, rga_frequencies_of, usage_between, used_share, CpuTimes,
};
use crate::text::{before_byte, parse_micros_spec, parse_u32_spec, trim};
use vstd::string::StringSliceAdditionalSpecFns;

verus! {

/// One timestamped record of every sensor, in raw units.
///
/// Usage fields are fixed point in millionths of a percent, frequencies are
/// in Hz, the temperature is in millidegrees Celsius and `timestamp_ms` is
/// wall-clock milliseconds since the Unix epoch.  A sensor that could not be
/// read contributes zero.
#[derive(Clone, Copy, Debug, PartialEq, Eq, Structural, Default)]
pub struct MetricSample {
    pub timestamp_ms: i64,
    pub cpu_usage: u64,
    pub cpu_freq: u64,
    pub gpu_usage: u64,
    pub gpu_freq: u64,
    pub npu_usage: u64,
    pub npu_freq: u64,
    pub rga_usage: u64,
    pub rga_aclk_freq: u64,
    pub rga_core_freq: u64,
    pub rga_hclk_freq: u64,
    pub memory_usage: u64,
    pub swap_usage: u64,
    pub temperature: u32,
    pub fan_state: u32,
}

/// The text of every sensor file for one tick.  A file that could not be
/// read is empty; `cpu_freq` holds the frequency files of the cores that
/// could be read, in core order.
pub struct SensorFiles {
    pub stat: Vec<u8>,
    pub cpu_freq: Vec<Vec<u8>>,
    pub gpu_load: Vec<u8>,
    pub gpu_freq: Vec<u8>,
    pub npu_load: Vec<u8>,
    pub npu_freq: Vec<u8>,
    pub rga_load: Vec<u8>,
    pub clk_summary: Vec<u8>,
    pub meminfo: Vec<u8>,
    pub temperature: Vec<u8>,
    pub fan_state: Vec<u8>,
}

pub open spec fn u32_or_zero(r: Option<u32>) -> u32 {
    match r {
        Some(v) => v,
        None => 0,
    }
}

/// The sample that the files of one tick give, with the CPU usage and the
/// time stamp already known.  The GPU load comes from its file, or else from
/// `gpu_fallback`, or else is zero.
pub open spec fn sample_of(
    files: &SensorFiles,
    gpu_fallback: Option<u64>,
    cpu_usage: u64,
    timestamp_ms: i64,
) -> MetricSample {
    let rga = rga_frequencies_of(files.clk_summary@);
    let mem = memory_totals_of(files.meminfo@);
    MetricSample {
        timestamp_ms,
        cpu_usage,
        cpu_freq: cpu_freq_of(files.cpu_freq@.map_values(|v: Vec<u8>| v@)),
        gpu_usage: match parse_micros_spec(trim(before_byte(files.gpu_load@, 64))) {
            Some(v) => v,
            None => or_zero(gpu_fallback),
        },
        gpu_freq: counter_of(files.gpu_freq@),
        npu_usage: or_zero(load_scan(files.npu_load@, "NPU load:".spec_bytes())),
        npu_freq: counter_of(files.npu_freq@),
        rga_usage: or_zero(load_scan(files.rga_load@, "load:".spec_bytes())),
        rga_aclk_freq: rga.0,
        rga_core_freq: rga.1,
        rga_hclk_freq: rga.2,
        memory_usage: used_share(mem.mem_total, mem.mem_available),
        swap_usage: used_share(mem.swap_total, mem.swap_free),
        temperature: u32_or_zero(parse_u32_spec(trim(files.temperature@))),
        fan_state: u32_or_zero(parse_u32_spec(trim(files.fan_state@))),
    }
}

/// Builds the sample of one tick from its files.
pub fn assemble_sample(
    files: &SensorFiles,
    gpu_fallback: Option<u64>,
    cpu_usage: u64,
    timestamp_ms: i64,
) -> (r: MetricSample)
    ensures
        r == sample_of(files, gpu_fallback, cpu_usage, timestamp_ms),
{
    let (memory_usage, swap_usage) = get_memory_info(files.meminfo.as_slice());
    let (rga_aclk, rga_core, rga_hclk) = get_rga_frequencies(files.clk_summary.as_slice());
    let gpu_usage = match get_gpu_usage(files.gpu_load.as_slice()) {
        Some(v) => v,
        None => match gpu_fallback {
            Some(v) => v,
            None => 0,
        },
    };
    MetricSample {
        timestamp_ms,
        cpu_usage,
        cpu_freq: get_cpu_frequency(&files.cpu_freq),
        gpu_usage,
        gpu_freq: get_gpu_frequency(files.gpu_freq.as_slice()),
        npu_usage: get_npu_usage(files.npu_load.as_slice()),
        npu_freq: get_npu_frequency(files.npu_freq.as_slice()),
        rga_usage: get_rga_usage(files.rga_load.as_slice()),
        rga_aclk_freq: rga_aclk,
        rga_core_freq: rga_core,
        rga_hclk_freq: rga_hclk,
        memory_usage,
        swap_usage,
        temperature: get_temperature(files.temperature.as_slice()),
        fan_state: get_fan_state(files.fan_state.as_slice()),
    }
}

/// Relies on `std::time::SystemTime::now` (with `duration_since` the epoch):
/// the current wall-clock time in milliseconds since the Unix epoch, negative
/// for a clock set before it.  No time zone is consulted and no input makes
/// it panic.  Nothing is promised of the value.
#[verifier::external_body]
fn wall_clock_ms() -> (r: i64) {
    match std::time::SystemTime::now().duration_since(std::time::UNIX_EPOCH) {
        Ok(d) => d.as_millis() as i64,
        Err(e) => (e.duration().as_millis() as i64).wrapping_neg(),
    }
}

/// Turns the sensor files of each tick into samples.  It keeps the CPU
/// counters of the previous tick, so that CPU usage is the busy share of the
/// time between two ticks rather than since boot.
pub struct Collector {
    prev_cpu: CpuTimes,
}

impl Collector {
    /// The CPU counters that the next sample's usage is measured from.
    pub closed spec fn previous(&self) -> CpuTimes {
        self.prev_cpu
    }

    /// A collector that has seen no tick: usage of the first sample is the
    /// busy share since the counters started.
    pub fn new() -> (r: Collector)
        ensures
            r.previous() == (CpuTimes { user: 0, nice: 0, system: 0, idle: 0 }),
    {
        Collector { prev_cpu: CpuTimes { user: 0, nice: 0, system: 0, idle: 0 } }
    }

    /// Builds the sample of this tick and stamps it with the wall clock.  CPU
    /// usage is measured against the previous tick's counters, and is zero
    /// when the stat file gives none; the counters are kept for the next tick.
    pub fn collect_system_metrics(&mut self, files: &SensorFiles, gpu_fallback: Option<u64>) -> (r:
        MetricSample)
        ensures
            r == sample_of(
                files,
                gpu_fallback,
                match cpu_times_of(files.stat@) {
                    Some(t) => usage_between(old(self).previous(), t),
                    None => 0,
                },
                r.timestamp_ms,
            ),
            final(self).previous() == (match cpu_times_of(files.stat@) {
                Some(t) => t,
                None => old(self).previous(),
            }),
    {
        let usage = match parse_cpu_stats(files.stat.as_slice()) {
            Some(t) => {
                let u = cpu_usage(self.prev_cpu, t);
                self.prev_cpu = t;
                u
            },
            None => 0,
        };
        let ts = wall_clock_ms();
        assemble_sample(files, gpu_fallback, usage, ts)
    }
}

} // verus!
