//! Dependency resolution for a two-tier package universe: packages installable
//! from an official database and packages built from community source manifests.
//!
//! The library holds the decision logic of the resolver: name normalization,
//! the shared resolution accumulator, classification of a name against the
//! database, manifest aggregation, error accumulation across parallel
//! branches, and tiered build ordering. The blocking collaborators (database
//! handles, network fetches, git clones, file reads) stay outside; callers
//! hand their answers in as plain values and apply the decisions made here.

pub mod error;
pub mod manifest;
pub mod normalize;
pub mod order;
pub mod resolve;
pub mod state;

pub use error::Error;
pub use normalize::strip_version;
pub use order::build_order;
pub use order::CycleError;
pub use state::Buildable;
pub use state::Official;
pub use state::Resolution;
