//! Error type shared by the public APIs of this crate.

use vstd::prelude::*;
use vstd::string::StringExecFns;

verus! {

/// Error returned by the public APIs of this crate.
#[derive(Debug, Clone)]
pub enum KiwiError {
    /// Dynamic library could not be loaded.
    LibraryLoad(String),
    /// Required symbol could not be resolved from the library.
    SymbolLoad(String),
    /// A string contained an interior `NUL` unit where none is allowed.
    NulByte(String),
    /// User-provided arguments were invalid.
    InvalidArgument(String),
    /// Automatic asset bootstrap failed.
    Bootstrap(String),
    /// Error reported by the native analyzer API.
    Api(String),
}

/// Convenience alias used throughout the crate.
pub type Result<T> = core::result::Result<T, KiwiError>;

/// Turns an optional native entry point into a result: versioned entry
/// points may be absent in the loaded analyzer build, and a missing one is
/// reported as a distinct capability error whose message names it.
pub fn require_optional_api<T: Copy>(function: Option<T>, name: &str) -> (r: Result<T>)
    ensures
        match r {
            Ok(f) => function == Some(f),
            Err(e) => function is None && (e matches KiwiError::Api(m)
                && crate::chars::spec_starts_with(m@, name@)),
        },
{
    match function {
        Some(f) => Ok(f),
        None => {
            let message = String::from_str(name).concat(
                " is unavailable in the loaded analyzer library version",
            );
            proof {
                assert(message@.take(name@.len() as int) =~= name@);
            }
            Err(KiwiError::Api(message))
        },
    }
}

} // verus!
