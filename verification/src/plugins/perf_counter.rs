//! The fixed vocabulary of hardware performance counters a run can track,
//! with their short labels. Opening, enabling and reading the kernel
//! counters is the host's work; the kinds, labels and the default selection
//! live here.

use vstd::prelude::*;
use crate::strings::str_eq;

verus! {

/// Name of the event listener that tracks hardware performance counters.
pub const PERF_CNT_EVENT_LISTENER_NAME: &'static str = "_binggan_perf";

/// A hardware performance counter kind.
#[derive(Debug, Clone, Copy, PartialEq, Eq, Hash, Structural)]
pub enum PerfCounter {
    /// Count of total CPU cycles; may be more stable than wall-clock time.
    CpuCycles,
    /// Count of total branch instructions executed.
    Branches,
    /// Count of branch instructions that were mispredicted.
    MissedBranches,
    /// Count of accesses to the level-one data cache.
    L1DCacheAccess,
    /// Count of misses in the level-one data cache.
    L1DCacheMiss,
    /// Count of accesses to the data translation lookaside buffer.
    TLBDataAccess,
    /// Count of misses in the data translation lookaside buffer.
    TLBDataMiss,
    /// Count of instructions retired by the CPU.
    InstructionsRetired,
    /// Count of page faults.
    PageFaults,
    /// Page faults that needed no disk access.
    PageFaultsMinor,
    /// Page faults that needed disk access.
    PageFaultsMajor,
}

/// The short label each counter kind renders under.
pub open spec fn label_of(c: PerfCounter) -> Seq<char> {
    match c {
        PerfCounter::CpuCycles => "Cycles"@,
        PerfCounter::Branches => "Br"@,
        PerfCounter::MissedBranches => "BrM"@,
        PerfCounter::L1DCacheAccess => "L1dA"@,
        PerfCounter::L1DCacheMiss => "L1dM"@,
        PerfCounter::TLBDataAccess => "dTLBA"@,
        PerfCounter::TLBDataMiss => "dTLBM"@,
        PerfCounter::InstructionsRetired => "IRet"@,
        PerfCounter::PageFaults => "PGF"@,
        PerfCounter::PageFaultsMinor => "PGFMin"@,
        PerfCounter::PageFaultsMajor => "PGFMaj"@,
    }
}

impl PerfCounter {
    /// The short label this counter kind renders under.
    pub fn label(&self) -> (r: &'static str)
        ensures
            r@ == label_of(*self),
    {
        match self {
            PerfCounter::CpuCycles => "Cycles",
            PerfCounter::Branches => "Br",
            PerfCounter::MissedBranches => "BrM",
            PerfCounter::L1DCacheAccess => "L1dA",
            PerfCounter::L1DCacheMiss => "L1dM",
            PerfCounter::TLBDataAccess => "dTLBA",
            PerfCounter::TLBDataMiss => "dTLBM",
            PerfCounter::InstructionsRetired => "IRet",
            PerfCounter::PageFaults => "PGF",
            PerfCounter::PageFaultsMinor => "PGFMin",
            PerfCounter::PageFaultsMajor => "PGFMaj",
        }
    }

    /// The counter kind with the given short label, if any.
    pub fn from_label(s: &str) -> (r: Option<PerfCounter>)
        ensures
            r matches Some(c) ==> s@ == label_of(c),
            r.is_none() ==> forall|c: PerfCounter| s@ != label_of(c),
    {
        if str_eq(s, "Cycles") {
            Some(PerfCounter::CpuCycles)
        } else if str_eq(s, "Br") {
            Some(PerfCounter::Branches)
        } else if str_eq(s, "BrM") {
            Some(PerfCounter::MissedBranches)
        } else if str_eq(s, "L1dA") {
            Some(PerfCounter::L1DCacheAccess)
        } else if str_eq(s, "L1dM") {
            Some(PerfCounter::L1DCacheMiss)
        } else if str_eq(s, "dTLBA") {
            Some(PerfCounter::TLBDataAccess)
        } else if str_eq(s, "dTLBM") {
            Some(PerfCounter::TLBDataMiss)
        } else if str_eq(s, "IRet") {
            Some(PerfCounter::InstructionsRetired)
        } else if str_eq(s, "PGF") {
            Some(PerfCounter::PageFaults)
        } else if str_eq(s, "PGFMin") {
            Some(PerfCounter::PageFaultsMinor)
        } else if str_eq(s, "PGFMaj") {
            Some(PerfCounter::PageFaultsMajor)
        } else {
            proof {
                assert forall|c: PerfCounter| s@ != label_of(c) by {
                    match c {
                        PerfCounter::CpuCycles => assert(s@ != "Cycles"@),
                        PerfCounter::Branches => assert(s@ != "Br"@),
                        PerfCounter::MissedBranches => assert(s@ != "BrM"@),
                        PerfCounter::L1DCacheAccess => assert(s@ != "L1dA"@),
                        PerfCounter::L1DCacheMiss => assert(s@ != "L1dM"@),
                        PerfCounter::TLBDataAccess => assert(s@ != "dTLBA"@),
                        PerfCounter::TLBDataMiss => assert(s@ != "dTLBM"@),
                        PerfCounter::InstructionsRetired => assert(s@ != "IRet"@),
                        PerfCounter::PageFaults => assert(s@ != "PGF"@),
                        PerfCounter::PageFaultsMinor => assert(s@ != "PGFMin"@),
                        PerfCounter::PageFaultsMajor => assert(s@ != "PGFMaj"@),
                    }
                }
            }
            None
        }
    }
}

/// The counters tracked when no explicit selection is configured.
pub fn default_perf_counters() -> (r: Vec<PerfCounter>)
    ensures
        r@ == seq![
            PerfCounter::Branches,
            PerfCounter::MissedBranches,
            PerfCounter::L1DCacheAccess,
            PerfCounter::L1DCacheMiss,
            PerfCounter::CpuCycles,
        ],
{
    let mut v: Vec<PerfCounter> = Vec::new();
    v.push(PerfCounter::Branches);
    v.push(PerfCounter::MissedBranches);
    v.push(PerfCounter::L1DCacheAccess);
    v.push(PerfCounter::L1DCacheMiss);
    v.push(PerfCounter::CpuCycles);
    proof {
        assert(v@ =~= seq![
            PerfCounter::Branches,
            PerfCounter::MissedBranches,
            PerfCounter::L1DCacheAccess,
            PerfCounter::L1DCacheMiss,
            PerfCounter::CpuCycles,
        ]);
    }
    v
}

} // verus!
