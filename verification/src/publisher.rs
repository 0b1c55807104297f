//! What the thread that publishes metrics does.

use vstd::prelude::*;

verus! {

/// How many seconds lie between two publications.
pub const AGGREGATION_PERIOD_SECS: u64 = 5;

/// The gauge for the memory of the process.
pub const PROCESS_MEMORY_GAUGE: &'static str = "process.memory_usage";

/// The gauge for the memory that the system has left.
pub const AVAILABLE_MEMORY_GAUGE: &'static str = "system.available_memory";

/// Why the publishing thread woke up.
#[derive(Debug, Clone, Copy, PartialEq, Eq, Structural)]
pub enum Wakeup {
    /// The aggregation period is over.
    PeriodOver,
    /// The sink is to shut down.
    ShutdownRequested,
    /// Nobody is left who could ask for the shutdown.
    HandleGone,
}

/// What the publishing thread does next. Either way it first polls the process and publishes: at
/// a shutdown that is the last chance of what came in since the last period.
#[derive(Debug, Clone, Copy, PartialEq, Eq, Structural)]
pub enum PublisherStep {
    PublishAndWait,
    PublishAndStop,
}

/// What the publishing thread does when it woke up.
pub fn publisher_step(wakeup: Wakeup) -> (step: PublisherStep)
    ensures
        step == PublisherStep::PublishAndWait <==> wakeup == Wakeup::PeriodOver,
{
    match wakeup {
        Wakeup::PeriodOver => PublisherStep::PublishAndWait,
        Wakeup::ShutdownRequested | Wakeup::HandleGone => PublisherStep::PublishAndStop,
    }
}

/// The memory that was measured.
#[derive(Debug, Clone, Copy, PartialEq, Eq, Structural)]
pub struct MemoryReport {
    /// The bytes that the process uses.
    pub process: u64,
    /// The bytes that the system has left.
    pub available: u64,
}

/// What to report after a poll, where `last` is what the process used at the poll before (zero,
/// if it was not seen then), `now` what it uses, if it is seen, and `available` what the system
/// has left: something only when the process's memory has changed, because otherwise it would be
/// too much.
pub fn memory_report(last: u64, now: Option<u64>, available: u64) -> (report: Option<MemoryReport>)
    ensures
        report == match now {
            Some(process) if process != last => Some(MemoryReport { process, available }),
            _ => None,
        },
{
    match now {
        Some(process) => if process != last {
            Some(MemoryReport { process, available })
        } else {
            None
        },
        None => None,
    }
}

} // verus!
