//! Error type of the package-manager core.
use vstd::prelude::*;
use vstd::string::StringExecFns;

verus! {

/// Failures surfaced by the core: unknown packages, conflicting versions,
/// unresolvable dependencies, and malformed input.
#[derive(Debug, Clone)]
pub enum TpmgrError {
    PackageNotFound { name: String },
    VersionConflict { message: String },
    DependencyResolution { message: String },
    IntegrityCheck { name: String },
    Permission { message: String },
    InvalidFormat { message: String },
}

impl TpmgrError {
    /// A human-readable description of the error.
    pub fn message(&self) -> (r: String)
        ensures
            r@ == match self {
                TpmgrError::PackageNotFound { name } => "Package not found: "@ + name@,
                TpmgrError::VersionConflict { message } => "Version conflict: "@ + message@,
                TpmgrError::DependencyResolution { message } => "Dependency resolution failed: "@
                    + message@,
                TpmgrError::IntegrityCheck { name } => "Package integrity check failed: "@
                    + name@,
                TpmgrError::Permission { message } => "Permission denied: "@ + message@,
                TpmgrError::InvalidFormat { message } => "Invalid package format: "@ + message@,
            },
    {
        match self {
            TpmgrError::PackageNotFound { name } => String::from_str("Package not found: ").concat(
                name.as_str(),
            ),
            TpmgrError::VersionConflict { message } => String::from_str(
                "Version conflict: ",
            ).concat(message.as_str()),
            TpmgrError::DependencyResolution { message } => String::from_str(
                "Dependency resolution failed: ",
            ).concat(message.as_str()),
            TpmgrError::IntegrityCheck { name } => String::from_str(
                "Package integrity check failed: ",
            ).concat(name.as_str()),
            TpmgrError::Permission { message } => String::from_str("Permission denied: ").concat(
                message.as_str(),
            ),
            TpmgrError::InvalidFormat { message } => String::from_str(
                "Invalid package format: ",
            ).concat(message.as_str()),
        }
    }
}

} // verus!
