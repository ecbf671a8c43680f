//! Configuration of an actor system and its executors.
use vstd::prelude::*;
use vstd::string::*;

verus! {

/// The kind of worker that runs actors.
#[derive(Clone, Copy, Debug, PartialEq, Eq, Structural)]
pub enum ExecutorType {
    Thread,
}

/// How many executors to run, and of which kind.
pub struct ExecutorConfig {
    pub num_executors: usize,
    pub executor_type: ExecutorType,
}

/// Configuration of an actor system.
pub struct ActorSystemConfig {
    pub executor_config: ExecutorConfig,
}

/// The message of a configuration without executors.
pub open spec fn no_executors_message() -> Seq<char> {
    "num_executors must be greater than 0"@
}

impl ExecutorConfig {
    /// Accepts a configuration with at least one executor.
    pub fn validate(&self) -> (r: Result<(), String>)
        ensures
            r is Ok <==> self.num_executors > 0,
            r is Err ==> r->Err_0@ == no_executors_message(),
    {
        if self.num_executors == 0 {
            return Err(String::from_str("num_executors must be greater than 0"));
        }
        Ok(())
    }
}

impl ActorSystemConfig {
    /// Accepts the configuration exactly when its executor configuration is accepted.
    pub fn validate(&self) -> (r: Result<(), String>)
        ensures
            r is Ok <==> self.executor_config.num_executors > 0,
            r is Err ==> r->Err_0@ == no_executors_message(),
    {
        self.executor_config.validate()
    }
}

/// Relies on num_cpus::get: the number of CPUs available to this process, which
/// its documentation promises is at least one.
#[verifier::external_body]
fn available_cpus() -> (r: usize)
    ensures
        r >= 1,
{
    num_cpus::get()
}

impl Default for ExecutorConfig {
    /// One thread executor per available CPU.
    fn default() -> (r: ExecutorConfig)
        ensures
            r.num_executors >= 1,
            r.executor_type == ExecutorType::Thread,
    {
        ExecutorConfig { num_executors: available_cpus(), executor_type: ExecutorType::Thread }
    }
}

impl Default for ActorSystemConfig {
    fn default() -> (r: ActorSystemConfig)
        ensures
            r.executor_config.num_executors >= 1,
            r.executor_config.executor_type == ExecutorType::Thread,
    {
        ActorSystemConfig { executor_config: ExecutorConfig::default() }
    }
}

} // verus!
