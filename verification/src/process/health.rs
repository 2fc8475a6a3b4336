//! Health classification of a process from its state and its metrics.
//!
//! CPU and memory figures arrive as `f32` values; here they are carried as
//! their IEEE-754 bit patterns and compared through the order that IEEE-754
//! gives non-NaN values (NaN compares false with everything).
use vstd::prelude::*;

use crate::text::{chars_of, same_chars};
use super::{HealthStatus, ProcessInfo, ProcessView};

verus! {

/// The bit pattern is an `f32` NaN.
pub open spec fn f32_is_nan(b: u32) -> bool {
    (b & 0x7f80_0000u32) == 0x7f80_0000u32 && (b & 0x007f_ffffu32) != 0
}

/// A number that orders non-NaN `f32` bit patterns as their values are
/// ordered (`-0.0` and `+0.0` are equal).
pub open spec fn f32_order_key(b: u32) -> int {
    if (b & 0x7fff_ffffu32) == 0 {
        0
    } else if (b & 0x8000_0000u32) != 0 {
        -((b & 0x7fff_ffffu32) as int)
    } else {
        b as int
    }
}

/// `a >= b` for the `f32` values with bit patterns `a` and `b`.
pub open spec fn f32_at_least(a: u32, b: u32) -> bool {
    !f32_is_nan(a) && !f32_is_nan(b) && f32_order_key(a) >= f32_order_key(b)
}

/// Bit pattern of `90.0f32`.
pub const F32_NINETY: u32 = 0x42b4_0000u32;

/// Bit pattern of `80.0f32`.
pub const F32_EIGHTY: u32 = 0x42a0_0000u32;

/// The smallest resident size whose `memory_rss as f32 / 1048576.0` is at
/// least `90.0` (the `f32` conversion rounds to 24 significant bits).
pub const MEMORY_CRITICAL_BYTES: u64 = 94_371_836u64;

/// The smallest resident size whose `memory_rss as f32 / 1048576.0` is at
/// least `80.0`.
pub const MEMORY_WARNING_BYTES: u64 = 83_886_076u64;

/// The order key of an `f32` bit pattern.
pub fn f32_key(b: u32) -> (k: i64)
    ensures
        k == f32_order_key(b),
{
    let mag = b & 0x7fff_ffffu32;
    if mag == 0 {
        0
    } else if (b & 0x8000_0000u32) != 0 {
        -(mag as i64)
    } else {
        b as i64
    }
}

/// Whether the bit pattern is an `f32` NaN.
pub fn f32_nan(b: u32) -> (r: bool)
    ensures
        r == f32_is_nan(b),
{
    (b & 0x7f80_0000u32) == 0x7f80_0000u32 && (b & 0x007f_ffffu32) != 0
}

/// `a >= b` on `f32` bit patterns.
pub fn f32_ge(a: u32, b: u32) -> (r: bool)
    ensures
        r == f32_at_least(a, b),
{
    !f32_nan(a) && !f32_nan(b) && f32_key(a) >= f32_key(b)
}

impl HealthStatus {
    /// Health from CPU and memory usage (`f32` bit patterns).
    pub open spec fn from_metrics(cpu: u32, mem: u32) -> HealthStatus {
        if f32_at_least(cpu, F32_NINETY) || f32_at_least(mem, F32_NINETY) {
            HealthStatus::Critical
        } else if f32_at_least(cpu, F32_EIGHTY) || f32_at_least(mem, F32_EIGHTY) {
            HealthStatus::Warning
        } else {
            HealthStatus::Healthy
        }
    }

    /// Determine health status from CPU and memory usage, given as the bit
    /// patterns of their `f32` values:
    /// - Critical: CPU >= 90 or memory >= 90
    /// - Warning: CPU >= 80 or memory >= 80
    /// - Healthy: otherwise
    pub fn from_cpu_mem(cpu_bits: u32, mem_bits: u32) -> (h: HealthStatus)
        ensures
            h == Self::from_metrics(cpu_bits, mem_bits),
    {
        if f32_ge(cpu_bits, F32_NINETY) || f32_ge(mem_bits, F32_NINETY) {
            HealthStatus::Critical
        } else if f32_ge(cpu_bits, F32_EIGHTY) || f32_ge(mem_bits, F32_EIGHTY) {
            HealthStatus::Warning
        } else {
            HealthStatus::Healthy
        }
    }

    /// The process state text marks a dead process.
    pub open spec fn status_is_dead(status: Seq<char>) -> bool {
        status == "Zombie"@ || status == "Dead"@
    }

    /// Determine health status from the process status text:
    /// `"Zombie"` or `"Dead"` is Critical, anything else Healthy.
    pub fn from_process_status(status: &str) -> (h: HealthStatus)
        ensures
            h == (if Self::status_is_dead(status@) {
                HealthStatus::Critical
            } else {
                HealthStatus::Healthy
            }),
    {
        let s = chars_of(status);
        if same_chars(&s, &chars_of("Zombie")) || same_chars(&s, &chars_of("Dead")) {
            HealthStatus::Critical
        } else {
            HealthStatus::Healthy
        }
    }

    /// The display text of the status.
    pub open spec fn label(self) -> Seq<char> {
        match self {
            HealthStatus::Healthy => "Healthy"@,
            HealthStatus::Warning => "Warning"@,
            HealthStatus::Critical => "Critical"@,
        }
    }

    /// The display text of the status, e.g. `"Warning"`.
    pub fn to_string(&self) -> (s: String)
        ensures
            s@ == self.label(),
    {
        match self {
            HealthStatus::Healthy => String::from_str("Healthy"),
            HealthStatus::Warning => String::from_str("Warning"),
            HealthStatus::Critical => String::from_str("Critical"),
        }
    }
}

impl ProcessInfo {
    /// Health of a process: a dead state is Critical whatever the metrics;
    /// otherwise CPU percentage and resident memory in MiB decide, with the
    /// thresholds of `HealthStatus::from_metrics`.
    pub open spec fn health_of(p: ProcessView) -> HealthStatus {
        if HealthStatus::status_is_dead(p.status) {
            HealthStatus::Critical
        } else if f32_at_least(p.cpu_percent_bits, F32_NINETY) || p.memory_rss
            >= MEMORY_CRITICAL_BYTES {
            HealthStatus::Critical
        } else if f32_at_least(p.cpu_percent_bits, F32_EIGHTY) || p.memory_rss
            >= MEMORY_WARNING_BYTES {
            HealthStatus::Warning
        } else {
            HealthStatus::Healthy
        }
    }

    /// Get the health status of this process based on its metrics and status.
    pub fn health(&self) -> (h: HealthStatus)
        ensures
            h == Self::health_of(self@),
    {
        let status_health = HealthStatus::from_process_status(self.status.as_str());
        if status_health == HealthStatus::Critical {
            return HealthStatus::Critical;
        }
        if f32_ge(self.cpu_percent_bits, F32_NINETY) || self.memory_rss >= MEMORY_CRITICAL_BYTES {
            HealthStatus::Critical
        } else if f32_ge(self.cpu_percent_bits, F32_EIGHTY) || self.memory_rss
            >= MEMORY_WARNING_BYTES {
            HealthStatus::Warning
        } else {
            HealthStatus::Healthy
        }
    }
}

} // verus!

verus! {

/// The health of a process that is not dead is decided by its figures:
/// resident memory of 90 MiB or more, or CPU of 90% or more, is Critical;
/// 80 MiB or 80% is at least Warning; below 80% CPU and below
/// 83_886_076 bytes (the least size whose MiB figure, as an `f32`, reaches
/// 80) it is Healthy. A Zombie or Dead process is Critical whatever its
/// figures.
pub proof fn law_health_by_metrics(p: ProcessView)
    ensures
        p.status == "Zombie"@ || p.status == "Dead"@ ==> ProcessInfo::health_of(p) == HealthStatus::Critical,
        p.memory_rss >= 90 * 1_048_576 ==> ProcessInfo::health_of(p) == HealthStatus::Critical,
        f32_at_least(p.cpu_percent_bits, 0x42b4_0000u32) ==> ProcessInfo::health_of(p) == HealthStatus::Critical,
        p.memory_rss >= 80 * 1_048_576 ==> ProcessInfo::health_of(p) != HealthStatus::Healthy,
        f32_at_least(p.cpu_percent_bits, 0x42a0_0000u32) ==> ProcessInfo::health_of(p) != HealthStatus::Healthy,
        !(p.status == "Zombie"@ || p.status == "Dead"@) && !f32_at_least(p.cpu_percent_bits, 0x42a0_0000u32)
            && p.memory_rss < 83_886_076 ==> ProcessInfo::health_of(p) == HealthStatus::Healthy,
        !(p.status == "Zombie"@ || p.status == "Dead"@) && !f32_at_least(p.cpu_percent_bits, 0x42b4_0000u32)
            && p.memory_rss < 94_371_836 ==> ProcessInfo::health_of(p) != HealthStatus::Critical,
{
    assert((0x42b4_0000u32 & 0x7fff_ffffu32) == 0x42b4_0000u32) by (bit_vector);
    assert((0x42b4_0000u32 & 0x8000_0000u32) == 0) by (bit_vector);
    assert((0x42b4_0000u32 & 0x7f80_0000u32) != 0x7f80_0000u32) by (bit_vector);
    assert((0x42a0_0000u32 & 0x7fff_ffffu32) == 0x42a0_0000u32) by (bit_vector);
    assert((0x42a0_0000u32 & 0x8000_0000u32) == 0) by (bit_vector);
    assert((0x42a0_0000u32 & 0x7f80_0000u32) != 0x7f80_0000u32) by (bit_vector);
    assert(f32_order_key(0x42b4_0000u32) == 0x42b4_0000);
    assert(f32_order_key(0x42a0_0000u32) == 0x42a0_0000);
}

} // verus!
