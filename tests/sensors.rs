use cpu_monitor::metrics::{assemble_sample, Collector, SensorFiles};
use cpu_monitor::sensors::{
    cpu_usage, get_cpu_frequency, get_device_info, get_fan_state, get_gpu_frequency,
    get_gpu_usage, get_memory_info, get_npu_frequency, get_npu_usage, get_rga_frequencies,
    get_rga_usage, get_temperature, parse_cpu_stats, CpuTimes,
};

fn empty_files() -> SensorFiles {
    SensorFiles {
        stat: Vec::new(),
        cpu_freq: Vec::new(),
        gpu_load: Vec::new(),
        gpu_freq: Vec::new(),
        npu_load: Vec::new(),
        npu_freq: Vec::new(),
        rga_load: Vec::new(),
        clk_summary: Vec::new(),
        meminfo: Vec::new(),
        temperature: Vec::new(),
        fan_state: Vec::new(),
    }
}

#[test]
fn counters_parse_trimmed() {
    assert_eq!(get_gpu_frequency(b"800000000\n"), 800_000_000);
    assert_eq!(get_npu_frequency(b"  1000000000 \n"), 1_000_000_000);
    assert_eq!(get_gpu_frequency(b"+42"), 42);
    assert_eq!(get_gpu_frequency(b""), 0);
    assert_eq!(get_gpu_frequency(b"12ab"), 0);
    assert_eq!(get_gpu_frequency(b"18446744073709551616"), 0);
    assert_eq!(get_gpu_frequency(b"18446744073709551615"), u64::MAX);
    assert_eq!(get_fan_state(b"3\n"), 3);
    assert_eq!(get_fan_state(b"4294967296\n"), 0);
    assert_eq!(get_temperature(b"45000\n"), 45_000);
    assert_eq!(get_temperature(b"-5000\n"), 0);
}

#[test]
fn cpu_frequency_takes_first_readable_core() {
    let files = vec![b"garbage".to_vec(), b"1800000\n".to_vec(), b"600000\n".to_vec()];
    assert_eq!(get_cpu_frequency(&files), 1_800_000_000);
    assert_eq!(get_cpu_frequency(&Vec::new()), 0);
}

#[test]
fn rga_clocks_from_summary() {
    let text = b"   clock   enable prepare protect rate\n\
        aclk_rga2e 1 1 0 800000000 0 0 50000\n\
        clk_core_rga2e 1 1 0 900000000 0 0 50000\r\n\
        hclk_rga2e 1 1 0 200000000 0 0 50000\n\
        other 1 1 0 5 0\n";
    assert_eq!(get_rga_frequencies(text), (800_000_000, 900_000_000, 200_000_000));
    assert_eq!(get_rga_frequencies(b"aclk_rga2e 1 1 0\n"), (0, 0, 0));
}

#[test]
fn memory_usage_from_meminfo() {
    let text = b"MemTotal:       1000 kB\nMemFree: 10 kB\nMemAvailable:    250 kB\nSwapTotal: 0 kB\nSwapFree: 0 kB\n";
    assert_eq!(get_memory_info(text), (75_000_000, 0));
    let text = b"SwapTotal: 400 kB\nSwapFree: 100 kB\n";
    assert_eq!(get_memory_info(text), (0, 75_000_000));
    assert_eq!(get_memory_info(b""), (0, 0));
}

#[test]
fn cpu_stats_and_usage() {
    let t = parse_cpu_stats(b"cpu  100 0 100 800 5 0 0\ncpu0 1 2 3 4\n").unwrap();
    assert_eq!(t, CpuTimes { user: 100, nice: 0, system: 100, idle: 800 });
    assert!(parse_cpu_stats(b"intr 1 2 3 4 5\n").is_none());
    assert!(parse_cpu_stats(b"cpu 1 2 3\n").is_none());
    assert!(parse_cpu_stats(b"").is_none());
    let zero = CpuTimes { user: 0, nice: 0, system: 0, idle: 0 };
    assert_eq!(cpu_usage(zero, t), 20_000_000);
    let later = CpuTimes { user: 150, nice: 0, system: 100, idle: 850 };
    assert_eq!(cpu_usage(t, later), 50_000_000);
    assert_eq!(cpu_usage(later, t), 0);
}

#[test]
fn loads_from_reports() {
    assert_eq!(get_npu_usage(b"NPU load:  35%\n"), 35_000_000);
    assert_eq!(get_npu_usage(b"NPU load:  Core0:  5%, Core1:  0%,\n"), 0);
    assert_eq!(get_rga_usage(b"header\nscheduler[0]: rga2\n load: 12.5%\n"), 12_500_000);
    assert_eq!(get_rga_usage(b"nothing here\n"), 0);
    assert_eq!(get_gpu_usage(b"35@800000000Hz\n"), Some(35_000_000));
    assert_eq!(get_gpu_usage(b"0.25@1Hz"), Some(250_000));
    assert_eq!(get_gpu_usage(b"x@1Hz"), None);
}

#[test]
fn device_info_joins_entries() {
    assert_eq!(get_device_info(Some(b"rockchip,rk3588\0rockchip\0")), b"rockchip,rk3588, rockchip, ".to_vec());
    assert_eq!(get_device_info(None), b"Unknown".to_vec());
}

#[test]
fn sample_from_files() {
    let mut files = empty_files();
    files.gpu_freq = b"600000000\n".to_vec();
    files.temperature = b"51000\n".to_vec();
    let s = assemble_sample(&files, Some(7_000_000), 1, 99);
    assert_eq!(s.gpu_freq, 600_000_000);
    assert_eq!(s.gpu_usage, 7_000_000);
    assert_eq!(s.temperature, 51_000);
    assert_eq!(s.cpu_usage, 1);
    assert_eq!(s.timestamp_ms, 99);
    assert_eq!(s.fan_state, 0);
}

#[test]
fn collector_measures_between_ticks() {
    let mut c = Collector::new();
    let mut files = empty_files();
    files.stat = b"cpu 100 0 100 800\n".to_vec();
    let first = c.collect_system_metrics(&files, None);
    assert_eq!(first.cpu_usage, 20_000_000);
    assert!(first.timestamp_ms > 0);
    files.stat = b"cpu 150 0 100 850\n".to_vec();
    let second = c.collect_system_metrics(&files, None);
    assert_eq!(second.cpu_usage, 50_000_000);
}

#[test]
fn whole_percent_in_millionths() {
    assert_eq!(cpu_monitor::sensors::percent_to_micros(37), 37_000_000);
    assert_eq!(cpu_monitor::sensors::percent_to_micros(0), 0);
}
