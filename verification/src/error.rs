use vstd::prelude::*;

verus! {

/// The failures the reconciliation core distinguishes.
#[derive(Clone, Copy, Debug, PartialEq, Eq, Structural)]
pub enum Error {
    /// The backend's binary could not be started, or its output could not be
    /// captured as text.
    SpawnFailure,
    /// The underlying tool's output did not match the expected line structure.
    ParseFailure,
    /// The operation is not supported by this backend.
    CapabilityNotSupported,
    /// The underlying tool ran but exited with the given nonzero status code.
    NonzeroExit(i32),
    /// A package was handed to a backend that requires a sub-namespace tag,
    /// without one.
    RepoTagMissing,
    /// A package name did not have the shape the backend requires.
    PackageNameMalformed,
}

/// The one-line description of each error kind.
pub open spec fn error_message(e: Error) -> Seq<char> {
    match e {
        Error::SpawnFailure => "could not run the backend process"@,
        Error::ParseFailure => "could not parse the backend's output"@,
        Error::CapabilityNotSupported => "not supported by this backend"@,
        Error::NonzeroExit(_) => "the backend process reported failure"@,
        Error::RepoTagMissing => "not specified whether it is a toolchain or a component"@,
        Error::PackageNameMalformed => "component is not scoped to a toolchain"@,
    }
}

impl Error {
    /// A short human-readable description, used in skip warnings.
    pub fn message(&self) -> (r: String)
        ensures
            r@ == error_message(*self),
    {
        match self {
            Error::SpawnFailure => "could not run the backend process".to_owned(),
            Error::ParseFailure => "could not parse the backend's output".to_owned(),
            Error::CapabilityNotSupported => "not supported by this backend".to_owned(),
            Error::NonzeroExit(_) => "the backend process reported failure".to_owned(),
            Error::RepoTagMissing => "not specified whether it is a toolchain or a component"
                .to_owned(),
            Error::PackageNameMalformed => "component is not scoped to a toolchain".to_owned(),
        }
    }
}

} // verus!
