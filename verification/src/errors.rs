use vstd::prelude::*;

verus! {

/// The error taxonomy of the instance lifecycle orchestrator.
///
/// Each variant names one way a command can fail; the functions that
/// return a `CliError` say in their `ensures` exactly which inputs
/// produce which variant.
#[derive(Debug, PartialEq, Eq)]
pub enum CliError {
    /// The container engine binary was not found.
    EngineNotInstalled,
    /// The container engine daemon is not reachable.
    EngineNotRunning,
    /// The requested stack type matches no catalog entry.
    InvalidStackType,
    /// No instance of the given name exists in the configuration.
    InstanceNotFound { name: String },
    /// A build-time extension install step failed; carries the captured
    /// error stream.
    ExtensionInstallFailed { stderr: String },
    /// A runtime extension enable step failed; carries the captured
    /// error stream.
    ExtensionEnableFailed { stderr: String },
    /// The configuration file could not be read or written.
    ConfigIoError,
    /// Cloud deployment was requested without stored credentials.
    MissingCredentials,
    /// The remote control plane answered with a client-error status.
    RemoteClientError { status: u16 },
}

} // verus!
