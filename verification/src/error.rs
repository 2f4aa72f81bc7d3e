//! What can go wrong.
use vstd::prelude::*;

verus! {

/// The error of the non-volatile storage, `esp_nvs::error::Error`, carried as it is.
#[verifier::external_type_specification]
#[verifier::external_body]
pub struct ExNvsError(esp_nvs::error::Error);

/// The error of the JSON reader, `serde_json::Error`, carried as it is.
#[verifier::external_type_specification]
#[verifier::external_body]
pub struct ExSerdeError(serde_json::Error);

/// The error of the task spawner, `embassy_executor::SpawnError`, whose content is not kept.
#[verifier::external_type_specification]
#[verifier::external_body]
pub struct ExSpawnError(embassy_executor::SpawnError);

/// What the radio reports.
#[derive(Debug)]
pub enum WifiFault {
    /// The station was disconnected or could not connect, with what is known about it.
    Disconnected(String),
    /// The operation or mode is not supported.
    Unsupported,
    /// The arguments are invalid.
    InvalidArguments,
    /// A failure that is not further specified.
    Failed,
    /// There is not enough memory.
    OutOfMemory,
    /// The network name is invalid.
    InvalidSsid,
    /// The password is invalid.
    InvalidPassword,
    /// The station is still disconnected.
    NotConnected,
    /// Any other report, as the radio words it.
    Unknown(String),
}

/// The errors of the WiFi manager.
#[derive(Debug)]
pub enum WmError {
    /// No connection in time.
    WmTimeout,
    WifiControllerStartError,
    WifiError(WifiFault),
    SerdeError(serde_json::Error),
    TaskSpawnError,
    NvsError(esp_nvs::error::Error),
    ControllerAlreadyActive,
    Other,
}

impl From<esp_nvs::error::Error> for WmError {
    fn from(value: esp_nvs::error::Error) -> (r: Self) {
        WmError::NvsError(value)
    }
}

impl vstd::std_specs::convert::FromSpecImpl<esp_nvs::error::Error> for WmError {
    open spec fn obeys_from_spec() -> bool {
        true
    }

    open spec fn from_spec(value: esp_nvs::error::Error) -> Self {
        WmError::NvsError(value)
    }
}

impl From<WifiFault> for WmError {
    fn from(value: WifiFault) -> (r: Self) {
        WmError::WifiError(value)
    }
}

impl vstd::std_specs::convert::FromSpecImpl<WifiFault> for WmError {
    open spec fn obeys_from_spec() -> bool {
        true
    }

    open spec fn from_spec(value: WifiFault) -> Self {
        WmError::WifiError(value)
    }
}

impl From<embassy_executor::SpawnError> for WmError {
    fn from(_value: embassy_executor::SpawnError) -> (r: Self) {
        WmError::TaskSpawnError
    }
}

impl vstd::std_specs::convert::FromSpecImpl<embassy_executor::SpawnError> for WmError {
    open spec fn obeys_from_spec() -> bool {
        true
    }

    open spec fn from_spec(value: embassy_executor::SpawnError) -> Self {
        WmError::TaskSpawnError
    }
}

impl From<serde_json::Error> for WmError {
    fn from(value: serde_json::Error) -> (r: Self) {
        WmError::SerdeError(value)
    }
}

impl vstd::std_specs::convert::FromSpecImpl<serde_json::Error> for WmError {
    open spec fn obeys_from_spec() -> bool {
        true
    }

    open spec fn from_spec(value: serde_json::Error) -> Self {
        WmError::SerdeError(value)
    }
}

impl From<()> for WmError {
    fn from(_value: ()) -> (r: Self) {
        WmError::Other
    }
}

impl vstd::std_specs::convert::FromSpecImpl<()> for WmError {
    open spec fn obeys_from_spec() -> bool {
        true
    }

    open spec fn from_spec(value: ()) -> Self {
        WmError::Other
    }
}

impl From<core::convert::Infallible> for WmError {
    fn from(_value: core::convert::Infallible) -> (r: Self) {
        WmError::Other
    }
}

impl vstd::std_specs::convert::FromSpecImpl<core::convert::Infallible> for WmError {
    open spec fn obeys_from_spec() -> bool {
        true
    }

    open spec fn from_spec(value: core::convert::Infallible) -> Self {
        WmError::Other
    }
}

/// Errors of the storage, the radio and the JSON reader are carried as they are, whichever they
/// are; those of the spawner, and reports without content, have an error of their own.
pub proof fn errors_are_carried(
    nvs: esp_nvs::error::Error,
    wifi: WifiFault,
    spawn: embassy_executor::SpawnError,
    json: serde_json::Error,
    never: core::convert::Infallible,
)
    ensures
        <WmError as vstd::std_specs::convert::FromSpec<esp_nvs::error::Error>>::from_spec(nvs)
            == WmError::NvsError(nvs),
        <WmError as vstd::std_specs::convert::FromSpec<WifiFault>>::from_spec(wifi)
            == WmError::WifiError(wifi),
        <WmError as vstd::std_specs::convert::FromSpec<embassy_executor::SpawnError>>::from_spec(
            spawn,
        ) == WmError::TaskSpawnError,
        <WmError as vstd::std_specs::convert::FromSpec<serde_json::Error>>::from_spec(json)
            == WmError::SerdeError(json),
        <WmError as vstd::std_specs::convert::FromSpec<()>>::from_spec(()) == WmError::Other,
        <WmError as vstd::std_specs::convert::FromSpec<core::convert::Infallible>>::from_spec(never)
            == WmError::Other,
{
}

} // verus!
