//! Transient cloud capacity: named machine groups are registered with a
//! builder, then an orchestrator drives the provisioning lifecycle
//! (request, await-active, cancel-reservation, await-readiness, remote
//! setup, callback, teardown) as a verified state machine. All provider
//! and session I/O is performed by a thin unverified shell that feeds
//! plain events into the orchestrator.

pub mod backoff;
pub mod error;
pub mod idmap;
pub mod machine;
pub mod orchestrator;
pub mod registry;

pub use backoff::backoff_delay_ms;
pub use error::Error;
pub use error::Outcome;
pub use error::ProviderError;
pub use machine::CapacityRequest;
pub use machine::InstanceDescription;
pub use machine::Machine;
pub use machine::ProvisionConfig;
pub use machine::RequestStatus;
pub use orchestrator::ActivePoll;
pub use orchestrator::Orchestrator;
pub use orchestrator::Phase;
pub use registry::BurstBuilder;
pub use registry::MachineSetup;
