//! A layered configuration engine: values with provenance, profile-aware
//! deep merging, and extraction of provenance-aware values.

pub mod key;
pub mod tag;
pub mod tree;
pub mod value;
pub mod coalesce;
pub mod profile;
pub mod metadata;
pub mod error;
pub mod path;
pub mod figment;
pub mod extract;
pub mod magic;
pub mod providers;

pub use crate::error::Error;
pub use crate::extract::Extract;
pub use crate::figment::Figment;
pub use crate::figment::Provider;
pub use crate::metadata::Metadata;
pub use crate::metadata::Source;
pub use crate::profile::Profile;
