//! Supervisor of a workspace's backend service: the registry file format,
//! the start lock, identity checks against PID reuse, and the start, stop and
//! reconciliation protocols, each as verified decisions over observations.
//!
//! - `record`: the registry record and its on-disk shapes
//! - `identity`: liveness and creation-time identity of a recorded pid
//! - `supervisor`: status, the start sequence and the stop protocol
//! - `reconcile`: the registry listing and startup reconciliation
//! - `orphan`: the best-effort scan for unregistered backends
//! - `layout`: where the files live
//! - `envfile`: a workspace's `.env` file and the service's environment
//! - `runtime`: choices around the Python runtime and paths from outside
//! - `text`: byte-level trimming and decimal numbers
pub mod text;
pub mod record;
pub mod identity;
pub mod supervisor;
pub mod layout;
pub mod reconcile;
pub mod orphan;
pub mod envfile;
pub mod runtime;
