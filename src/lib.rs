//! Resolution of the environment variables that publish the files of a
//! retrieved asset from the build phase that owns it to the phases that
//! depend on it.
//!
//! The schema of each asset lists its content identifiers (paths inside
//! the extracted asset) and maps each of them to a variable name. Export
//! mode pairs each variable with the path of a file that is present under a
//! base directory; Import mode reads the values that the build tool relayed.
//! Both walk the content identifiers in declared order and stop at the
//! first one without a variable name; Import also stops at the first value
//! that cannot be read. The filesystem and the
//! process environment stay with the caller: the functions here take what
//! was observed and say exactly what is to be emitted, applied and returned.

pub mod assoc;
pub mod error;
pub mod laws;
pub mod resolve;
pub mod schema;

pub use assoc::ResolvedEnvironment;
pub use error::{IgnitionError, VarFault};
pub use resolve::{ExportOutcome, ImportOutcome};
pub use schema::{AssetEnvironment, Binding, Plan, Schema};


