//! Task orchestration and permission-gating layer for a host application that
//! runs untrusted scripts in isolated sandboxes.
//!
//! The crate tracks each submitted script as a task with an observable state
//! machine, mediates the protocol between a running sandbox's capability
//! checks and an external accept/deny decision, and supports race-free
//! cancellation and reaping. The sandbox engine itself, the persistent data
//! store and the presentation layer are external collaborators: the driver
//! around this crate runs them and reports their events into the record
//! store, which decides every transition.

pub mod client;
pub mod laws;
pub mod orchestrator;
pub mod task;

pub use client::StoreClient;
pub use orchestrator::Orchestrator;
pub use orchestrator::RequestOutcome;
pub use orchestrator::RespondEffect;
pub use task::CachedDecision;
pub use task::DecisionScope;
pub use task::OrchError;
pub use task::PermissionRequest;
pub use task::PermissionResponse;
pub use task::ResourceKind;
pub use task::Task;
pub use task::TaskFailure;
pub use task::TaskState;
