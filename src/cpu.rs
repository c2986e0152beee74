//! CPU statistics variation between two measurements

use vstd::prelude::*;

verus! {

/// Cumulative CPU statistics counters, as measured at one point in time
#[derive(Copy, Clone, Debug, Eq, PartialEq, Structural)]
pub struct StatsCounters {
    /// Context switches (voluntary + involuntary)
    pub ctx_switches: u64,
    /// Interrupts
    pub interrupts: u64,
    /// Software interrupts (zero where the system does not count them)
    pub soft_interrupts: u64,
}

/// CPU statistics variation between two measurements
#[derive(Copy, Clone, Debug, Eq, PartialEq, Structural)]
pub struct StatsDelta {
    /// New context switches (voluntary + involuntary)
    pub new_ctx_switches: u64,
    /// New interrupts
    pub new_interrupts: u64,
    /// New software interrupts
    pub new_soft_interrupts: u64,
}

/// Counters only grow from one measurement to the next.
pub open spec fn counters_grow(old: StatsCounters, new: StatsCounters) -> bool {
    &&& old.ctx_switches <= new.ctx_switches
    &&& old.interrupts <= new.interrupts
    &&& old.soft_interrupts <= new.soft_interrupts
}

/// Whether counters only grew from one measurement to the next.
pub fn counters_grow_exec(earlier: &StatsCounters, later: &StatsCounters) -> (r: bool)
    ensures
        r == counters_grow(*earlier, *later),
{
    earlier.ctx_switches <= later.ctx_switches && earlier.interrupts <= later.interrupts
        && earlier.soft_interrupts <= later.soft_interrupts
}

impl StatsDelta {
    /// The change in CPU statistics from an earlier measurement to a later one
    pub fn between(earlier: &StatsCounters, later: &StatsCounters) -> (r: StatsDelta)
        requires
            counters_grow(*earlier, *later),
        ensures
            r.new_ctx_switches == later.ctx_switches - earlier.ctx_switches,
            r.new_interrupts == later.interrupts - earlier.interrupts,
            r.new_soft_interrupts == later.soft_interrupts - earlier.soft_interrupts,
    {
        StatsDelta {
            new_ctx_switches: later.ctx_switches - earlier.ctx_switches,
            new_interrupts: later.interrupts - earlier.interrupts,
            new_soft_interrupts: later.soft_interrupts - earlier.soft_interrupts,
        }
    }
}


/// Range of possible CPU frequencies, in hertz
#[derive(Copy, Clone, Debug, Eq, PartialEq, Structural)]
pub struct FrequencyRange {
    /// Minimal CPU frequency (if known)
    pub min: Option<u64>,
    /// Maximal CPU frequency (if known)
    pub max: Option<u64>,
}

/// Which CPUs a reported frequency range applies to
#[derive(Copy, Clone, Debug, Eq, PartialEq, Structural)]
pub enum CpuSelector {
    /// All CPUs
    All,
    /// The logical CPU of this index
    Logical(usize),
}

/// No per-CPU range before index `j` differs from the global range.
pub open spec fn same_before(per_cpu: Seq<FrequencyRange>, global: FrequencyRange, j: int) -> bool {
    forall|i: int| 0 <= i < j ==> per_cpu[i] == global
}

/// The first per-CPU range that differs from the global range.
pub open spec fn first_difference(per_cpu: Seq<FrequencyRange>, global: FrequencyRange) -> int {
    choose|j: int| 0 <= j < per_cpu.len() && per_cpu[j] != global && same_before(per_cpu, global, j)
}

/// The frequency ranges to report: the global range for all CPUs, unless
/// per-CPU ranges are known and one of them differs from it; then one range
/// per logical CPU, where the CPUs before the first that differs share the
/// global range.
pub open spec fn frequency_lines(global: FrequencyRange, per_cpu: Option<Seq<FrequencyRange>>) -> Seq<
    (CpuSelector, FrequencyRange),
> {
    match per_cpu {
        Some(v) => if same_before(v, global, v.len() as int) {
            seq![(CpuSelector::All, global)]
        } else {
            let d = first_difference(v, global);
            Seq::new(
                v.len(),
                |i: int|
                    (CpuSelector::Logical(i as usize), if i < d {
                        global
                    } else {
                        v[i]
                    }),
            )
        },
        None => seq![(CpuSelector::All, global)],
    }
}

/// Decide which CPU frequency ranges to report: the detailed per-CPU
/// breakdown only where the range is CPU-dependent, otherwise the more
/// concise global range.
pub fn frequency_report(global: FrequencyRange, per_cpu: Option<Vec<FrequencyRange>>) -> (r: Vec<
    (CpuSelector, FrequencyRange),
>)
    ensures
        r@ == frequency_lines(
            global,
            match per_cpu {
                Some(v) => Some(v@),
                None => None,
            },
        ),
{
    let mut lines: Vec<(CpuSelector, FrequencyRange)> = Vec::new();
    let mut detailed = false;
    if let Some(v) = &per_cpu {
        let ghost d: int = 0;
        for idx in 0..v.len()
            invariant
                !detailed ==> same_before(v@, global, idx as int) && lines@.len() == 0,
                detailed ==> 0 <= d < idx && v@[d] != global && same_before(v@, global, d),
                detailed ==> lines@ == Seq::new(
                    idx as nat,
                    |i: int|
                        (CpuSelector::Logical(i as usize), if i < d {
                            global
                        } else {
                            v@[i]
                        }),
                ),
        {
            let ghost before = lines@;
            if detailed {
                lines.push((CpuSelector::Logical(idx), v[idx]));
                assert(lines@ =~= Seq::new(
                    (idx + 1) as nat,
                    |i: int|
                        (CpuSelector::Logical(i as usize), if i < d {
                            global
                        } else {
                            v@[i]
                        }),
                ));
            } else if v[idx] != global {
                detailed = true;
                proof {
                    d = idx as int;
                }
                for old_idx in 0..idx
                    invariant
                        d == idx,
                        lines@ == Seq::new(
                            old_idx as nat,
                            |i: int| (CpuSelector::Logical(i as usize), global),
                        ),
                {
                    lines.push((CpuSelector::Logical(old_idx), global));
                    assert(lines@ =~= Seq::new(
                        (old_idx + 1) as nat,
                        |i: int| (CpuSelector::Logical(i as usize), global),
                    ));
                }
                lines.push((CpuSelector::Logical(idx), v[idx]));
                assert(lines@ =~= Seq::new(
                    (idx + 1) as nat,
                    |i: int|
                        (CpuSelector::Logical(i as usize), if i < d {
                            global
                        } else {
                            v@[i]
                        }),
                ));
            }
        }
        proof {
            if detailed {
                assert(!same_before(v@, global, v@.len() as int));
                let c = first_difference(v@, global);
                assert(c == d) by {
                    if c < d {
                        assert(v@[c] == global);
                    }
                    if d < c {
                        assert(v@[d] == global);
                    }
                }
            }
        }
    }
    if !detailed {
        lines.push((CpuSelector::All, global));
        assert(lines@ =~= seq![(CpuSelector::All, global)]);
    }
    lines
}

} // verus!
