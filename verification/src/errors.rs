//! The error kinds the monitor surfaces.
//!
//! Capture trouble is non-fatal: the pipeline records the condition and
//! continues on socket tables alone. The unavailable-capture message must
//! direct the operator to grant the raw-socket capability.

use vstd::prelude::*;

verus! {

/// What went wrong, with the detail a consumer needs.
#[derive(Clone, Debug)]
pub enum CaptureError {
    /// The device could not be opened, typically for want of privileges.
    CaptureUnavailable,
    /// The named interface does not exist; the available ones are listed.
    InterfaceNotFound(String, Vec<String>),
    /// Capture failed while running.
    CaptureFailed(String),
    /// The device itself failed.
    DeviceFailed(String),
    /// A kernel pseudo-file could not be read.
    ProcReadFailed(String),
    /// A kernel pseudo-file held something unparsable.
    ProcParseFailed(String, String),
    /// The configuration was rejected.
    ConfigInvalid(String),
    /// A rule import was rejected.
    RuleImportFailed(String),
}

impl CaptureError {
    /// The operator-facing message. For unavailable capture it directs
    /// the operator to grant the raw-socket capability.
    pub fn message(&self) -> (r: String)
        ensures
            (self is CaptureUnavailable ==> r@
                == "Insufficient privileges. Grant the raw-socket capability: setcap cap_net_raw,cap_net_admin=eip"@),
            (self matches CaptureError::InterfaceNotFound(name, _) ==> r@ == "Network interface not found: "@
                + name@),
            (self matches CaptureError::CaptureFailed(detail) ==> r@ == "Packet capture failed: "@
                + detail@),
            (self matches CaptureError::DeviceFailed(detail) ==> r@ == "Device error: "@
                + detail@),
            (self matches CaptureError::ProcReadFailed(path) ==> r@
                == "Cannot read kernel file: "@ + path@),
            (self matches CaptureError::ProcParseFailed(path, _) ==> r@
                == "Cannot parse kernel file: "@ + path@),
            (self matches CaptureError::ConfigInvalid(detail) ==> r@
                == "Configuration invalid: "@ + detail@),
            (self matches CaptureError::RuleImportFailed(detail) ==> r@
                == "Rule import failed: "@ + detail@),
    {
        match self {
            CaptureError::CaptureUnavailable => {
                "Insufficient privileges. Grant the raw-socket capability: setcap cap_net_raw,cap_net_admin=eip".to_owned()
            },
            CaptureError::InterfaceNotFound(name, _) => {
                "Network interface not found: ".to_owned().concat(name.as_str())
            },
            CaptureError::CaptureFailed(detail) => {
                "Packet capture failed: ".to_owned().concat(detail.as_str())
            },
            CaptureError::DeviceFailed(detail) => {
                "Device error: ".to_owned().concat(detail.as_str())
            },
            CaptureError::ProcReadFailed(path) => {
                "Cannot read kernel file: ".to_owned().concat(path.as_str())
            },
            CaptureError::ProcParseFailed(path, _) => {
                "Cannot parse kernel file: ".to_owned().concat(path.as_str())
            },
            CaptureError::ConfigInvalid(detail) => {
                "Configuration invalid: ".to_owned().concat(detail.as_str())
            },
            CaptureError::RuleImportFailed(detail) => {
                "Rule import failed: ".to_owned().concat(detail.as_str())
            },
        }
    }

    /// Whether the pipeline may carry on without live capture: every
    /// capture-side failure is non-fatal.
    pub fn is_fatal(&self) -> (r: bool)
        ensures
            r == (self is ConfigInvalid),
    {
        match self {
            CaptureError::ConfigInvalid(_) => true,
            _ => false,
        }
    }
}

} // verus!
