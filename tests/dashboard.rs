use cpu_monitor::chart::{display_value, project, MetricKey};
use cpu_monitor::dashboard::{App, Command, Tick};
use cpu_monitor::history::HistoryStore;
use cpu_monitor::metrics::MetricSample;

fn sample_with(cpu_usage: u64, stamp: i64) -> MetricSample {
    MetricSample { cpu_usage, timestamp_ms: stamp, ..MetricSample::default() }
}

#[test]
fn history_keeps_at_most_600() {
    let mut h = HistoryStore::new();
    for i in 0..600 {
        h.append(sample_with(i, i as i64));
    }
    assert_eq!(h.len(), 600);
    assert_eq!(h.get(0).cpu_usage, 0);
    assert_eq!(h.get(1).cpu_usage, 1);
    h.append(sample_with(600, 600));
    assert_eq!(h.len(), 600);
    assert_eq!(h.get(0).cpu_usage, 1);
    assert_eq!(h.last().unwrap().cpu_usage, 600);
    for i in 601..2000 {
        h.append(sample_with(i, i as i64));
        assert!(h.len() <= 600);
    }
    assert_eq!(h.get(0).cpu_usage, 1400);
}

#[test]
fn empty_history_projects_to_empty_series() {
    let h = HistoryStore::new();
    let (data, bounds) = project(&h, MetricKey::CpuUsage);
    assert!(data.is_empty());
    assert_eq!(bounds, (0, 10_000_000));
}

#[test]
fn flat_history_bounds() {
    let mut h = HistoryStore::new();
    for _ in 0..5 {
        h.append(sample_with(42_000_000, 0));
    }
    let (data, bounds) = project(&h, MetricKey::CpuUsage);
    assert_eq!(data.len(), 5);
    assert_eq!(bounds, (0, 52_000_000));
}

#[test]
fn spread_history_bounds_are_padded() {
    let mut h = HistoryStore::new();
    for v in [0u64, 10_000_000, 20_000_000] {
        h.append(sample_with(v, 0));
    }
    let (data, bounds) = project(&h, MetricKey::CpuUsage);
    assert_eq!(data, vec![(0, 0), (200, 10_000_000), (400, 20_000_000)]);
    assert_eq!(bounds, (0, 22_000_000));
}

#[test]
fn lower_bound_stays_above_padding() {
    let mut h = HistoryStore::new();
    for v in [50_000_000u64, 60_000_000] {
        h.append(sample_with(v, 0));
    }
    let (_, bounds) = project(&h, MetricKey::CpuUsage);
    assert_eq!(bounds, (49_000_000, 61_000_000));
}

#[test]
fn frequency_projects_to_mhz() {
    let m = MetricSample { gpu_freq: 1_800_000, ..MetricSample::default() };
    // 1.8 MHz in millionths of a MHz
    assert_eq!(display_value(&m, MetricKey::GpuFreq), 1_800_000);
    let m = MetricSample { cpu_freq: 1_800_000_000, ..MetricSample::default() };
    assert_eq!(display_value(&m, MetricKey::CpuFreq), 1_800_000_000);
}

#[test]
fn temperature_projects_to_degrees() {
    let m = MetricSample { temperature: 45_000, fan_state: 3, ..MetricSample::default() };
    // 45.0 degrees in millionths of a degree
    assert_eq!(display_value(&m, MetricKey::Temperature), 45_000_000);
    assert_eq!(display_value(&m, MetricKey::FanState), 3_000_000);
}

#[test]
fn tabs_wrap_both_ways() {
    let mut app = App::new(0);
    let names: Vec<&str> = app.tab_titles().iter().map(|t| t.as_str()).collect();
    assert_eq!(names, vec!["CPU", "GPU", "NPU", "RGA", "Memory", "Thermal"]);
    assert_eq!(app.current_tab(), 0);
    app.previous_tab();
    assert_eq!(app.current_tab(), 5);
    app.next_tab();
    assert_eq!(app.current_tab(), 0);
    app.next_tab();
    assert_eq!(app.current_tab(), 1);
}

#[test]
fn tick_collects_once_per_period() {
    let mut app = App::new(1_000);
    assert_eq!(app.tick(None, 1_100), Tick::Wait);
    assert_eq!(app.tick(None, 1_199), Tick::Wait);
    assert_eq!(app.tick(None, 1_200), Tick::Collect);
    assert_eq!(app.last_refresh_ms(), 1_200);
    assert_eq!(app.tick(None, 1_300), Tick::Wait);
    assert_eq!(app.tick(Some(Command::NextTab), 1_450), Tick::Collect);
    assert_eq!(app.current_tab(), 1);
    assert_eq!(app.tick(Some(Command::PreviousTab), 1_500), Tick::Wait);
    assert_eq!(app.current_tab(), 0);
    assert_eq!(app.tick(Some(Command::Quit), 5_000), Tick::Quit);
    assert_eq!(app.tick(None, 1_649), Tick::Wait);
    assert_eq!(app.tick(None, 1_650), Tick::Collect);
}

#[test]
fn collection_instants_are_spaced() {
    let mut app = App::new(0);
    let mut instants = Vec::new();
    let mut now = 0u64;
    while now < 5_000 {
        now += 70;
        if app.tick(None, now) == Tick::Collect {
            instants.push(now);
        }
    }
    assert!(!instants.is_empty());
    for w in instants.windows(2) {
        assert!(w[1] >= w[0] + 200);
    }
}

#[test]
fn update_feeds_chart() {
    let mut app = App::new(0);
    app.update(MetricSample { temperature: 40_000, ..MetricSample::default() });
    app.update(MetricSample { temperature: 50_000, ..MetricSample::default() });
    let (data, bounds) = app.get_data_for_chart(MetricKey::Temperature);
    assert_eq!(data, vec![(0, 40_000_000), (200, 50_000_000)]);
    assert_eq!(bounds, (39_000_000, 51_000_000));
    assert_eq!(app.history().len(), 2);
}
