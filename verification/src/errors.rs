//! The error taxonomy shared by every fallible registry operation.
//!
//! Every operation is total: a failure is always returned as a value, and
//! each value renders as a single human-readable message string at the
//! boundary.

use vstd::prelude::*;

verus! {

/// Why a registry operation failed.
#[derive(Debug)]
pub enum RegistryError {
    /// A register call used a name that is already present in one of the
    /// kind-maps.
    NameCollision,
    /// A mutation, child removal or unregister call named a metric that is
    /// not registered.
    NotFound,
    /// A label vector's length differed from the family's declared arity.
    LabelArityMismatch { expected: usize, got: usize },
    /// A label vector's addressing hash collides with that of a different
    /// label combination already present in the family; giving it a child
    /// would silently share the existing one, so the call is refused.
    LabelHashCollision,
    /// A counter increment was negative or NaN; a counter only goes up.
    InvalidCounterDelta,
    /// The underlying collector library rejected the schema at creation or
    /// registration time; carries the collector's own message.
    CollectorCreation(String),
    /// The underlying collector registry refused to remove a family; carries
    /// the collector's own message.
    CollectorRemoval(String),
    /// The lock guarding a kind-map is unusable (a prior holder failed).
    LockUnavailable,
    /// A group unregister removed every matched family from the local maps,
    /// but one or more could not be removed from the collector registry;
    /// carries the names that failed.
    GroupUnregisterPartialFailure(Vec<String>),
    /// The exporter was given a string that is not a valid socket address.
    AddressParse,
    /// The exporter could not bind its socket address; carries the
    /// transport's own message.
    Bind(String),
}

impl RegistryError {
    /// The single human-readable string this error renders as at the
    /// boundary.
    pub fn message(&self) -> (r: String)
        ensures
            r@.len() > 0,
    {
        let r = match self {
            RegistryError::NameCollision => String::from_str(
                "Metric with same name is already registered",
            ),
            RegistryError::NotFound => String::from_str("Metric not found"),
            RegistryError::LabelArityMismatch { expected: _, got: _ } => String::from_str(
                "Label vector length does not match the declared label names",
            ),
            RegistryError::LabelHashCollision => String::from_str(
                "Label values collide with an existing label combination",
            ),
            RegistryError::InvalidCounterDelta => String::from_str(
                "Counter increments must be non-negative",
            ),
            RegistryError::CollectorCreation(m) => String::from_str("Collector error: ").concat(
                m.as_str(),
            ),
            RegistryError::CollectorRemoval(m) => String::from_str("Collector error: ").concat(
                m.as_str(),
            ),
            RegistryError::LockUnavailable => String::from_str("Registry lock is unavailable"),
            RegistryError::GroupUnregisterPartialFailure(_) => String::from_str(
                "Can't unregister group members",
            ),
            RegistryError::AddressParse => String::from_str("Invalid socket address"),
            RegistryError::Bind(m) => String::from_str("Exporter error: ").concat(m.as_str()),
        };
        proof {
            reveal_strlit("Metric with same name is already registered");
            reveal_strlit("Metric not found");
            reveal_strlit("Label vector length does not match the declared label names");
            reveal_strlit("Label values collide with an existing label combination");
            reveal_strlit("Counter increments must be non-negative");
            reveal_strlit("Collector error: ");
            reveal_strlit("Registry lock is unavailable");
            reveal_strlit("Can't unregister group members");
            reveal_strlit("Invalid socket address");
            reveal_strlit("Exporter error: ");
        }
        r
    }
}

} // verus!
