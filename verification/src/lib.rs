//! Layered environment-file configuration: a deployment profile is resolved
//! from one selector variable, a fixed ordered list of candidate files is
//! derived from it, and the files' key/value pairs are applied in order to an
//! in-memory environment snapshot, later files overriding earlier ones.

pub mod cascade;
pub mod env_map;
pub mod laws;
pub mod profile;

pub use cascade::FileOutcome;
pub use cascade::LoadError;
pub use cascade::apply_pairs;
pub use cascade::candidate_files;
pub use cascade::load_files;
pub use cascade::load_outcomes;
pub use env_map::EnvMap;
pub use profile::Profile;
pub use profile::ParseError;
pub use profile::parse_profile;
pub use profile::resolve_profile;
