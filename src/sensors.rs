use vstd::prelude::*;
use vstd::string::StringSliceAdditionalSpecFns;

use crate::text::{
    before_byte, contains, line_end, contains_bytes, fields, find_byte, fold_lines, line_at, matches_at,
    next_line, nth_field, parse_micros_spec, parse_u64_range, parse_u64_spec, parse_u32_spec,
    read_micros, read_u64, second_piece, starts_with, starts_with_bytes, trim,
};

verus! {

/// A reading, or zero where the sensor gave none.
pub open spec fn or_zero(r: Option<u64>) -> u64 {
    match r {
        Some(v) => v,
        None => 0,
    }
}

/// A whole-file counter: its trimmed text as a decimal, or zero.
pub open spec fn counter_of(s: Seq<u8>) -> u64 {
    or_zero(parse_u64_spec(trim(s)))
}

/// Reads a file that holds one decimal counter, such as a devfreq
/// `cur_freq` file in Hz; zero when it does not parse.
fn read_counter(content: &[u8]) -> (r: u64)
    ensures
        r == counter_of(content@),
{
    match read_u64(content) {
        Some(v) => v,
        None => 0,
    }
}

/// GPU frequency in Hz from the GPU's devfreq `cur_freq` file.
pub fn get_gpu_frequency(content: &[u8]) -> (r: u64)
    ensures
        r == counter_of(content@),
{
    read_counter(content)
}

/// NPU frequency in Hz from the NPU's devfreq `cur_freq` file.
pub fn get_npu_frequency(content: &[u8]) -> (r: u64)
    ensures
        r == counter_of(content@),
{
    read_counter(content)
}

/// Cooling-device state from its `cur_state` file; zero when it does not
/// parse as a `u32`.
pub fn get_fan_state(content: &[u8]) -> (r: u32)
    ensures
        r == (match parse_u32_spec(trim(content@)) {
            Some(v) => v,
            None => 0,
        }),
{
    match read_u64(content) {
        Some(v) => if v <= u32::MAX as u64 { v as u32 } else { 0 },
        None => 0,
    }
}

/// Thermal-zone temperature in millidegrees Celsius from its `temp` file;
/// zero when it does not parse as a `u32` (a reading below zero among them).
pub fn get_temperature(content: &[u8]) -> (r: u32)
    ensures
        r == (match parse_u32_spec(trim(content@)) {
            Some(v) => v,
            None => 0,
        }),
{
    match read_u64(content) {
        Some(v) => if v <= u32::MAX as u64 { v as u32 } else { 0 },
        None => 0,
    }
}

/// A per-core `scaling_cur_freq` reading (kHz) in Hz, when it parses and fits.
pub open spec fn core_hz(s: Seq<u8>) -> Option<u64> {
    match parse_u64_spec(trim(s)) {
        Some(k) => if k * 1000 <= u64::MAX { Some((k * 1000) as u64) } else { None },
        None => None,
    }
}

/// CPU frequency in Hz: the first core file, in core order, whose reading
/// parses; zero when none does.
pub open spec fn cpu_freq_of(files: Seq<Seq<u8>>) -> u64
    decreases files.len(),
{
    if files.len() == 0 {
        0
    } else {
        match core_hz(files[0]) {
            Some(hz) => hz,
            None => cpu_freq_of(files.drop_first()),
        }
    }
}

/// CPU frequency in Hz from the `scaling_cur_freq` files of the cores that
/// could be read, in core order.
pub fn get_cpu_frequency(core_files: &Vec<Vec<u8>>) -> (r: u64)
    ensures
        r == cpu_freq_of(core_files@.map_values(|v: Vec<u8>| v@)),
{
    let ghost all = core_files@.map_values(|v: Vec<u8>| v@);
    assert(all.skip(0) =~= all);
    let mut i: usize = 0;
    while i < core_files.len()
        invariant
            i <= core_files@.len(),
            all == core_files@.map_values(|v: Vec<u8>| v@),
            cpu_freq_of(all) == cpu_freq_of(all.skip(i as int)),
        decreases core_files@.len() - i,
    {
        assert(all.skip(i as int)[0] == core_files@[i as int]@);
        assert(all.skip(i as int).drop_first() =~= all.skip(i as int + 1));
        match read_u64(core_files[i].as_slice()) {
            Some(k) => {
                if k <= u64::MAX / 1000 {
                    return k * 1000;
                }
            },
            None => {},
        }
        i = i + 1;
    }
    assert(all.skip(i as int) =~= Seq::<Seq<u8>>::empty());
    0
}

/// Field `n` of a line as a decimal, when there is one and it parses.
pub open spec fn field_u64(l: Seq<u8>, n: nat) -> Option<u64> {
    if n < fields(l).len() {
        parse_u64_spec(fields(l)[n as int])
    } else {
        None
    }
}

fn read_field(line: &[u8], n: usize) -> (r: Option<u64>)
    ensures
        r == field_u64(line@, n as nat),
{
    match nth_field(line, n) {
        Some((a, b)) => parse_u64_range(line, a, b),
        None => None,
    }
}

/// One line of the clock summary: a line naming one of the RGA clocks sets
/// that clock's rate (in Hz) from its fifth column, when that parses.
pub open spec fn rga_line(acc: (u64, u64, u64), l: Seq<u8>) -> (u64, u64, u64) {
    if contains(l, "aclk_rga2e".spec_bytes()) {
        match field_u64(l, 4) {
            Some(v) => (v, acc.1, acc.2),
            None => acc,
        }
    } else if contains(l, "clk_core_rga2e".spec_bytes()) {
        match field_u64(l, 4) {
            Some(v) => (acc.0, v, acc.2),
            None => acc,
        }
    } else if contains(l, "hclk_rga2e".spec_bytes()) {
        match field_u64(l, 4) {
            Some(v) => (acc.0, acc.1, v),
            None => acc,
        }
    } else {
        acc
    }
}

pub open spec fn rga_step() -> spec_fn((u64, u64, u64), Seq<u8>) -> (u64, u64, u64) {
    |acc: (u64, u64, u64), l: Seq<u8>| rga_line(acc, l)
}

/// RGA clock rates (ACLK, core, HCLK) in Hz from a clock-summary table;
/// the last line for each clock wins, and a clock without one reads zero.
pub open spec fn rga_frequencies_of(s: Seq<u8>) -> (u64, u64, u64) {
    fold_lines(s, 0, (0u64, 0u64, 0u64), rga_step())
}

fn rga_line_exec(line: &[u8], acc: (u64, u64, u64)) -> (r: (u64, u64, u64))
    ensures
        r == rga_line(acc, line@),
{
    if contains_bytes(line, "aclk_rga2e".as_bytes()) {
        match read_field(line, 4) {
            Some(v) => (v, acc.1, acc.2),
            None => acc,
        }
    } else if contains_bytes(line, "clk_core_rga2e".as_bytes()) {
        match read_field(line, 4) {
            Some(v) => (acc.0, v, acc.2),
            None => acc,
        }
    } else if contains_bytes(line, "hclk_rga2e".as_bytes()) {
        match read_field(line, 4) {
            Some(v) => (acc.0, acc.1, v),
            None => acc,
        }
    } else {
        acc
    }
}

/// RGA clock rates (ACLK, core, HCLK) in Hz from the clock summary.
pub fn get_rga_frequencies(content: &[u8]) -> (r: (u64, u64, u64))
    ensures
        r == rga_frequencies_of(content@),
{
    let mut acc: (u64, u64, u64) = (0, 0, 0);
    let mut i: usize = 0;
    while i < content.len()
        invariant
            i <= content@.len(),
            rga_frequencies_of(content@) == fold_lines(content@, i as int, acc, rga_step()),
        decreases content@.len() - i,
    {
        let (e, next) = next_line(content, i);
        let line = vstd::slice::slice_subrange(content, i, e);
        let ghost before = acc;
        acc = rga_line_exec(line, acc);
        assert(rga_step()(before, line@) == acc);
        assert(fold_lines(content@, i as int, before, rga_step()) == fold_lines(
            content@,
            line_end(content@, i as int) + 1,
            acc,
            rga_step(),
        ));
        i = next;
    }
    acc
}

/// Totals read from a meminfo table, in kB.
#[derive(Clone, Copy, Debug, PartialEq, Eq, Structural)]
pub struct MemoryTotals {
    pub mem_total: u64,
    pub mem_available: u64,
    pub swap_total: u64,
    pub swap_free: u64,
}

/// One meminfo line: a line that starts with one of the four keys sets that
/// total from its second column, or to zero when that is missing or does not
/// parse.
pub open spec fn meminfo_line(acc: MemoryTotals, l: Seq<u8>) -> MemoryTotals {
    let v = or_zero(field_u64(l, 1));
    if starts_with(l, "MemTotal:".spec_bytes()) {
        MemoryTotals { mem_total: v, ..acc }
    } else if starts_with(l, "MemAvailable:".spec_bytes()) {
        MemoryTotals { mem_available: v, ..acc }
    } else if starts_with(l, "SwapTotal:".spec_bytes()) {
        MemoryTotals { swap_total: v, ..acc }
    } else if starts_with(l, "SwapFree:".spec_bytes()) {
        MemoryTotals { swap_free: v, ..acc }
    } else {
        acc
    }
}

pub open spec fn meminfo_step() -> spec_fn(MemoryTotals, Seq<u8>) -> MemoryTotals {
    |acc: MemoryTotals, l: Seq<u8>| meminfo_line(acc, l)
}

/// The four totals of a meminfo table; a key that no line gives reads zero.
pub open spec fn memory_totals_of(s: Seq<u8>) -> MemoryTotals {
    fold_lines(
        s,
        0,
        MemoryTotals { mem_total: 0, mem_available: 0, swap_total: 0, swap_free: 0 },
        meminfo_step(),
    )
}

/// The share of `total` not in `free`, in millionths of a percent; zero
/// when `total` is zero.  More free than total counts as all free.
pub open spec fn used_share(total: u64, free: u64) -> u64 {
    if total == 0 {
        0
    } else {
        let used = if free >= total { 0 } else { total - free };
        ((used as int) * 100_000_000 / (total as int)) as u64
    }
}

fn meminfo_line_exec(line: &[u8], acc: MemoryTotals) -> (r: MemoryTotals)
    ensures
        r == meminfo_line(acc, line@),
{
    let v = match read_field(line, 1) {
        Some(v) => v,
        None => 0,
    };
    if starts_with_bytes(line, "MemTotal:".as_bytes()) {
        MemoryTotals { mem_total: v, ..acc }
    } else if starts_with_bytes(line, "MemAvailable:".as_bytes()) {
        MemoryTotals { mem_available: v, ..acc }
    } else if starts_with_bytes(line, "SwapTotal:".as_bytes()) {
        MemoryTotals { swap_total: v, ..acc }
    } else if starts_with_bytes(line, "SwapFree:".as_bytes()) {
        MemoryTotals { swap_free: v, ..acc }
    } else {
        acc
    }
}

fn share_exec(total: u64, free: u64) -> (r: u64)
    ensures
        r == used_share(total, free),
        r <= 100_000_000,
{
    if total == 0 {
        return 0;
    }
    let used: u64 = if free >= total { 0 } else { total - free };
    let r: u128 = used as u128 * 100_000_000 / total as u128;
    assert(r <= 100_000_000) by (nonlinear_arith)
        requires
            r as int == (used as int) * 100_000_000 / (total as int),
            used <= total,
            total > 0,
    ;
    r as u64
}

/// The four totals of a meminfo table.
pub fn parse_memory_totals(content: &[u8]) -> (r: MemoryTotals)
    ensures
        r == memory_totals_of(content@),
{
    let mut acc = MemoryTotals { mem_total: 0, mem_available: 0, swap_total: 0, swap_free: 0 };
    let mut i: usize = 0;
    while i < content.len()
        invariant
            i <= content@.len(),
            memory_totals_of(content@) == fold_lines(content@, i as int, acc, meminfo_step()),
        decreases content@.len() - i,
    {
        let (e, next) = next_line(content, i);
        let line = vstd::slice::slice_subrange(content, i, e);
        let ghost before = acc;
        acc = meminfo_line_exec(line, acc);
        assert(meminfo_step()(before, line@) == acc);
        assert(fold_lines(content@, i as int, before, meminfo_step()) == fold_lines(
            content@,
            line_end(content@, i as int) + 1,
            acc,
            meminfo_step(),
        ));
        i = next;
    }
    acc
}

/// Memory and swap usage, in millionths of a percent, from a meminfo table:
/// the share of the total that is not available (memory) or not free (swap).
pub fn get_memory_info(content: &[u8]) -> (r: (u64, u64))
    ensures
        r.0 == used_share(memory_totals_of(content@).mem_total, memory_totals_of(content@).mem_available),
        r.1 == used_share(memory_totals_of(content@).swap_total, memory_totals_of(content@).swap_free),
{
    let t = parse_memory_totals(content);
    (share_exec(t.mem_total, t.mem_available), share_exec(t.swap_total, t.swap_free))
}

/// Cumulative CPU time counters from the aggregate line of a stat file.
#[derive(Clone, Copy, Debug, PartialEq, Eq, Structural)]
pub struct CpuTimes {
    pub user: u64,
    pub nice: u64,
    pub system: u64,
    pub idle: u64,
}

pub open spec fn busy_of(t: CpuTimes) -> nat {
    t.user as nat + t.nice as nat + t.system as nat
}

pub open spec fn total_of(t: CpuTimes) -> nat {
    busy_of(t) + t.idle as nat
}

/// The aggregate counters of a stat file: its first line, when that has at
/// least five fields and the first is `cpu`.  A counter that does not parse
/// reads zero.
pub open spec fn cpu_times_of(s: Seq<u8>) -> Option<CpuTimes> {
    let l = line_at(s, 0);
    let f = fields(l);
    if s.len() > 0 && f.len() >= 5 && f[0] == "cpu".spec_bytes() {
        Some(
            CpuTimes {
                user: or_zero(parse_u64_spec(f[1])),
                nice: or_zero(parse_u64_spec(f[2])),
                system: or_zero(parse_u64_spec(f[3])),
                idle: or_zero(parse_u64_spec(f[4])),
            },
        )
    } else {
        None
    }
}

/// Busy share of the CPU between two readings of the counters, in millionths
/// of a percent.  Zero when no time has passed between them, or when a
/// counter went backwards (the counters were reset).
pub open spec fn usage_between(prev: CpuTimes, now: CpuTimes) -> u64 {
    if total_of(now) > total_of(prev) && busy_of(now) >= busy_of(prev) && now.idle >= prev.idle {
        ((busy_of(now) - busy_of(prev)) * 100_000_000 / (total_of(now) - total_of(prev))) as u64
    } else {
        0
    }
}

fn read_field_or_zero(line: &[u8], n: usize) -> (r: u64)
    requires
        n < fields(line@).len(),
    ensures
        r == or_zero(parse_u64_spec(fields(line@)[n as int])),
{
    match read_field(line, n) {
        Some(v) => v,
        None => 0,
    }
}

/// The aggregate CPU counters of a stat file.
pub fn parse_cpu_stats(content: &[u8]) -> (r: Option<CpuTimes>)
    ensures
        r == cpu_times_of(content@),
{
    if content.len() == 0 {
        return None;
    }
    let (e, _next) = next_line(content, 0);
    let line = vstd::slice::slice_subrange(content, 0, e);
    let ghost f = fields(line@);
    if nth_field(line, 4).is_none() {
        return None;
    }
    let (a, b) = match nth_field(line, 0) {
        Some(p) => p,
        None => {
            return None;
        },
    };
    let cpu = "cpu".as_bytes();
    if b - a != cpu.len() || !matches_at(line, cpu, a) {
        assert(line@.subrange(a as int, b as int) != cpu@ || f[0] != cpu@);
        return None;
    }
    assert(f[0] =~= cpu@);
    Some(
        CpuTimes {
            user: read_field_or_zero(line, 1),
            nice: read_field_or_zero(line, 2),
            system: read_field_or_zero(line, 3),
            idle: read_field_or_zero(line, 4),
        },
    )
}

/// Busy share of the CPU between two readings, in millionths of a percent.
pub fn cpu_usage(prev: CpuTimes, now: CpuTimes) -> (r: u64)
    ensures
        r == usage_between(prev, now),
        r <= 100_000_000,
{
    let busy_prev = prev.user as u128 + prev.nice as u128 + prev.system as u128;
    let busy_now = now.user as u128 + now.nice as u128 + now.system as u128;
    let total_prev = busy_prev + prev.idle as u128;
    let total_now = busy_now + now.idle as u128;
    if total_now > total_prev && busy_now >= busy_prev && now.idle >= prev.idle {
        let d_busy = busy_now - busy_prev;
        let d_total = total_now - total_prev;
        assert(d_busy <= d_total);
        let r = d_busy * 100_000_000 / d_total;
        assert(r <= 100_000_000) by (nonlinear_arith)
            requires
                r as int == (d_busy as int) * 100_000_000 / (d_total as int),
                d_busy <= d_total,
                d_total > 0,
        ;
        r as u64
    } else {
        0
    }
}

/// The load on one line of a load report: when the line holds `label`, the
/// text between its first and second colon, up to a percent sign, trimmed,
/// as a decimal in millionths of a percent.
pub open spec fn load_of(l: Seq<u8>, label: Seq<u8>) -> Option<u64> {
    if contains(l, label) {
        match second_piece(l, 58) {
            Some(p) => parse_micros_spec(trim(before_byte(p, 37))),
            None => None,
        }
    } else {
        None
    }
}

pub open spec fn load_step(label: Seq<u8>) -> spec_fn(Option<u64>, Seq<u8>) -> Option<u64> {
    |acc: Option<u64>, l: Seq<u8>| if acc.is_some() { acc } else { load_of(l, label) }
}

/// The load of the first line of a report that gives one for `label`.
pub open spec fn load_scan(s: Seq<u8>, label: Seq<u8>) -> Option<u64> {
    fold_lines(s, 0, None, load_step(label))
}

fn load_line(line: &[u8], label: &[u8]) -> (r: Option<u64>)
    ensures
        r == load_of(line@, label@),
{
    if !contains_bytes(line, label) {
        return None;
    }
    let c = find_byte(line, 58, 0);
    if c == line.len() {
        return None;
    }
    let e = find_byte(line, 58, c + 1);
    let piece = vstd::slice::slice_subrange(line, c + 1, e);
    let pct = find_byte(piece, 37, 0);
    let head = vstd::slice::slice_subrange(piece, 0, pct);
    read_micros(head)
}

/// The load that a report gives for `label`, in millionths of a percent.
pub fn scan_load(content: &[u8], label: &[u8]) -> (r: Option<u64>)
    ensures
        r == load_scan(content@, label@),
{
    let mut acc: Option<u64> = None;
    let mut i: usize = 0;
    while i < content.len()
        invariant
            i <= content@.len(),
            load_scan(content@, label@) == fold_lines(content@, i as int, acc, load_step(label@)),
        decreases content@.len() - i,
    {
        let (e, next) = next_line(content, i);
        let line = vstd::slice::slice_subrange(content, i, e);
        let ghost before = acc;
        if acc.is_none() {
            acc = load_line(line, label);
        }
        assert(load_step(label@)(before, line@) == acc);
        assert(fold_lines(content@, i as int, before, load_step(label@)) == fold_lines(
            content@,
            line_end(content@, i as int) + 1,
            acc,
            load_step(label@),
        ));
        i = next;
    }
    acc
}

/// NPU load, in millionths of a percent, from the NPU's load report; zero
/// when no `NPU load:` line gives one.
pub fn get_npu_usage(content: &[u8]) -> (r: u64)
    ensures
        r == or_zero(load_scan(content@, "NPU load:".spec_bytes())),
{
    match scan_load(content, "NPU load:".as_bytes()) {
        Some(v) => v,
        None => 0,
    }
}

/// RGA load, in millionths of a percent, from the RGA's load report; zero
/// when no `load:` line gives one.
pub fn get_rga_usage(content: &[u8]) -> (r: u64)
    ensures
        r == or_zero(load_scan(content@, "load:".spec_bytes())),
{
    match scan_load(content, "load:".as_bytes()) {
        Some(v) => v,
        None => 0,
    }
}

/// A whole percentage, such as a driver's utilisation rate, in millionths
/// of a percent.
pub fn percent_to_micros(pct: u32) -> (r: u64)
    ensures
        r == pct as nat * 1_000_000,
{
    pct as u64 * 1_000_000
}

/// GPU load, in millionths of a percent, from a devfreq `load` file of the
/// form `<load>@<rate>Hz`: the text before the first `@`, trimmed.
pub fn get_gpu_usage(content: &[u8]) -> (r: Option<u64>)
    ensures
        r == parse_micros_spec(trim(before_byte(content@, 64))),
{
    let at = find_byte(content, 64, 0);
    let head = vstd::slice::slice_subrange(content, 0, at);
    read_micros(head)
}

/// `s` with each NUL byte replaced by `, `.
pub open spec fn replace_nul(s: Seq<u8>) -> Seq<u8>
    decreases s.len(),
{
    if s.len() == 0 {
        Seq::empty()
    } else {
        replace_nul(s.drop_last()) + (if s.last() == 0 { seq![44u8, 32u8] } else { seq![s.last()] })
    }
}

/// Device name from the device tree's `compatible` list, whose entries are
/// NUL-separated; `Unknown` when the file could not be read.
pub fn get_device_info(content: Option<&[u8]>) -> (r: Vec<u8>)
    ensures
        r@ == (match content {
            Some(c) => replace_nul(c@),
            None => "Unknown".spec_bytes(),
        }),
{
    match content {
        None => vstd::slice::slice_to_vec("Unknown".as_bytes()),
        Some(c) => {
            let mut out: Vec<u8> = Vec::new();
            let mut i: usize = 0;
            while i < c.len()
                invariant
                    i <= c@.len(),
                    out@ == replace_nul(c@.subrange(0, i as int)),
                decreases c@.len() - i,
            {
                assert(c@.subrange(0, i as int + 1).drop_last() =~= c@.subrange(0, i as int));
                if c[i] == 0 {
                    out.push(44);
                    out.push(32);
                } else {
                    out.push(c[i]);
                }
                i = i + 1;
                assert(out@ =~= replace_nul(c@.subrange(0, i as int)));
            }
            assert(c@.subrange(0, i as int) =~= c@);
            out
        },
    }
}

} // verus!
