//! System metrics sampling policy: a minimum refresh interval that bounds
//! sampling overhead on the capture loop, and the derivation of the reported
//! process figures from one raw sample.

use vstd::prelude::*;

verus! {

/// A sample is taken at most this often, in nanoseconds.
pub const REFRESH_INTERVAL_NS: u64 = 500_000_000;

/// CPU usage is reported as a percentage, clamped to this many hundredths.
pub const CPU_CENTI_PERCENT_MAX: u32 = 10_000;

/// One raw reading of the operating system's process table: the recording
/// process's own figures when the process could be located, and the
/// system-wide aggregate as the fallback.
#[derive(Clone, Copy, PartialEq, Eq, Structural, Debug)]
pub struct SystemSample {
    /// CPU and resident memory of the recording process, if it was found:
    /// hundredths of a percent, and bytes.
    pub process_cpu_centi: u32,
    pub process_memory_bytes: u64,
    pub process_found: bool,
    /// Sum of the per-core CPU percentages in hundredths, and the core count.
    pub global_cpu_centi_total: u64,
    pub cpu_count: u64,
    /// System-wide used memory in bytes.
    pub used_memory_bytes: u64,
}

/// What a sample reports: CPU in hundredths of a percent and memory in
/// thousandths of a megabyte.
#[derive(Clone, Copy, PartialEq, Eq, Structural, Debug)]
pub struct SystemReport {
    pub cpu_usage_centi_percent: u32,
    pub memory_usage_mb_milli: u64,
}

/// The reported CPU figure: the process's own usage when it was found, else
/// the average over all cores; either way clamped to 100 percent.
pub open spec fn spec_cpu_centi(s: SystemSample) -> int {
    let raw = if s.process_found {
        s.process_cpu_centi as int
    } else if s.cpu_count > 0 {
        s.global_cpu_centi_total as int / s.cpu_count as int
    } else {
        0
    };
    if raw > CPU_CENTI_PERCENT_MAX {
        CPU_CENTI_PERCENT_MAX as int
    } else {
        raw
    }
}

/// The reported memory figure: the process's resident bytes when it was
/// found, else the system-wide used bytes, in thousandths of a megabyte.
pub open spec fn spec_memory_mb_milli(s: SystemSample) -> int {
    let bytes = if s.process_found {
        s.process_memory_bytes as int
    } else {
        s.used_memory_bytes as int
    };
    bytes * 1000 / 1048576
}

/// Derives the reported figures from one raw sample.
pub fn compute_report(sample: &SystemSample) -> (r: SystemReport)
    ensures
        r.cpu_usage_centi_percent as int == spec_cpu_centi(*sample),
        r.memory_usage_mb_milli as int == spec_memory_mb_milli(*sample),
{
    let raw_cpu: u64 = if sample.process_found {
        sample.process_cpu_centi as u64
    } else if sample.cpu_count > 0 {
        sample.global_cpu_centi_total / sample.cpu_count
    } else {
        0
    };
    let cpu: u32 = if raw_cpu > CPU_CENTI_PERCENT_MAX as u64 {
        CPU_CENTI_PERCENT_MAX
    } else {
        raw_cpu as u32
    };
    let bytes: u64 = if sample.process_found {
        sample.process_memory_bytes
    } else {
        sample.used_memory_bytes
    };
    let mb_milli: u64 = ((bytes as u128) * 1000 / 1048576) as u64;
    proof {
        assert((bytes as int) * 1000 <= 0xFFFF_FFFF_FFFF_FFFFint * 1000) by (nonlinear_arith)
            requires
                bytes <= 0xFFFF_FFFF_FFFF_FFFFu64,
        ;
        vstd::arithmetic::div_mod::lemma_div_is_ordered(
            (bytes as int) * 1000,
            0xFFFF_FFFF_FFFF_FFFFint * 1000,
            1048576,
        );
        assert(0xFFFF_FFFF_FFFF_FFFFint * 1000 / 1048576 <= 0xFFFF_FFFF_FFFF_FFFFint);
    }
    SystemReport { cpu_usage_centi_percent: cpu, memory_usage_mb_milli: mb_milli }
}

/// Caches when the process table was last sampled, so the capture loop does
/// not pay for a fresh sample more than twice a second.
pub struct SystemMetrics {
    last_update_ns: u64,
}

impl SystemMetrics {
    /// At what instant the last sample was taken.
    pub closed spec fn spec_last_update_ns(&self) -> u64 {
        self.last_update_ns
    }

    /// A fresh sampler whose cache dates from the given instant.
    pub fn new(now_ns: u64) -> (m: SystemMetrics)
        ensures
            m.spec_last_update_ns() == now_ns,
    {
        SystemMetrics { last_update_ns: now_ns }
    }

    /// Whether the cached sample is stale: the refresh interval has passed.
    pub fn refresh_due(&self, now_ns: u64) -> (due: bool)
        requires
            now_ns >= self.spec_last_update_ns(),
        ensures
            due == (now_ns - self.spec_last_update_ns() > REFRESH_INTERVAL_NS),
    {
        now_ns - self.last_update_ns > REFRESH_INTERVAL_NS
    }

    /// Notes that a fresh sample was just taken.
    pub fn mark_refreshed(&mut self, now_ns: u64)
        ensures
            final(self).spec_last_update_ns() == now_ns,
    {
        self.last_update_ns = now_ns;
    }
}

} // verus!
