//! Configuration of the command source and the selection between sources.
use vstd::prelude::*;

verus! {

/// Where render jobs come from, with the parameters of that origin.
#[derive(Clone, Debug)]
pub enum CommandSourceConfig {
    /// Jobs pulled from a remote coordinator over a persistent connection.
    Worker { coordinator: String },
    /// Jobs read once from a file; results are written out.
    Batch { path: String },
    /// Jobs read from a fixture file; results are compared with the expected ones.
    TestRunner { input: String, output: String },
}

/// The process configuration as far as the command source reads it.
#[derive(Clone, Debug)]
pub struct Config {
    pub command_source: CommandSourceConfig,
    /// Long-lived worker slots advertised to the coordinator.
    pub stable_worker_count: u32,
    /// Elastic, preemptible worker slots advertised to the coordinator.
    pub unstable_worker_count: u32,
}

/// An empty marker asking the active source to stop producing items.
#[derive(Clone, Copy, Debug, PartialEq, Eq, Structural)]
pub struct QuitSignal {}

/// The one source to build, with everything it needs.
#[derive(Clone, Debug)]
pub enum SourcePlan {
    Worker { coordinator: String, worker_count: u64 },
    Batch { path: String },
    TestRunner { input: String, output: String },
}

/// The total capacity advertised to the coordinator.
pub open spec fn total_workers(stable: u32, unstable: u32) -> nat {
    stable as nat + unstable as nat
}

/// Chooses the source that `config` names; a worker source advertises the sum of
/// the stable and the unstable worker counts.
pub fn new(config: &Config) -> (plan: SourcePlan)
    ensures
        match config.command_source {
            CommandSourceConfig::Worker { coordinator } => match plan {
                SourcePlan::Worker { coordinator: c, worker_count } => c@ == coordinator@
                    && worker_count as nat == total_workers(
                    config.stable_worker_count,
                    config.unstable_worker_count,
                ),
                _ => false,
            },
            CommandSourceConfig::Batch { path } => match plan {
                SourcePlan::Batch { path: p } => p@ == path@,
                _ => false,
            },
            CommandSourceConfig::TestRunner { input, output } => match plan {
                SourcePlan::TestRunner { input: i, output: o } => i@ == input@ && o@ == output@,
                _ => false,
            },
        },
{
    match &config.command_source {
        CommandSourceConfig::Worker { coordinator } => {
            let worker_count: u64 = config.stable_worker_count as u64
                + config.unstable_worker_count as u64;
            SourcePlan::Worker { coordinator: coordinator.clone(), worker_count }
        },
        CommandSourceConfig::Batch { path } => SourcePlan::Batch { path: path.clone() },
        CommandSourceConfig::TestRunner { input, output } => {
            SourcePlan::TestRunner { input: input.clone(), output: output.clone() }
        },
    }
}

} // verus!
