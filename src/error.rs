use vstd::prelude::*;

verus! {

/// Why an inbound variable could not be read from the process environment.
#[derive(Clone, Copy, Debug, PartialEq, Eq, Structural)]
pub enum VarFault {
    /// The variable is not set.
    NotPresent,
    /// The variable is set, but its value is not valid unicode.
    NotUnicode,
}

/// Error type of the resolver.
#[derive(Clone, Debug, PartialEq, Eq)]
pub enum IgnitionError {
    /// An asset name or a content identifier has no entry in the schema.
    BadHashMapKeyError(String),
    /// An inbound variable was missing or unreadable during Import.
    EnvironmentVariableError(VarFault),
    /// The configuration text does not have the shape of a schema.
    ConfigurationDeserializationError(String),
}

/// `e` reports that the lookup of `key` failed.
pub open spec fn is_bad_key(e: IgnitionError, key: Seq<char>) -> bool {
    &&& e is BadHashMapKeyError
    &&& e->BadHashMapKeyError_0@ == key
}

} // verus!
