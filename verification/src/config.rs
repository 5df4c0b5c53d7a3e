//! Startup configuration as plain values.
//!
//! Loading and saving these from a file, and detecting the running
//! system, are the surrounding program's business; the core only holds
//! and defaults the values.

use vstd::prelude::*;

verus! {

/// Capture settings.
#[derive(Clone, Debug)]
pub struct CaptureConfig {
    pub interface: Option<String>,
    pub buffer_size: usize,
    pub timeout_ms: u32,
    pub promiscuous: bool,
}

impl Default for CaptureConfig {
    /// No fixed interface, a 64 KiB buffer, a one-second poll timeout,
    /// and no promiscuous mode.
    fn default() -> (r: CaptureConfig)
        ensures
            r.interface is None,
            r.buffer_size == 65536,
            r.timeout_ms == 1000,
            !r.promiscuous,
    {
        CaptureConfig { interface: None, buffer_size: 65536, timeout_ms: 1000, promiscuous: false }
    }
}

/// Consumer settings.
#[derive(Clone, Debug)]
pub struct UiConfig {
    pub refresh_rate_ms: u64,
    pub default_view: String,
    pub color_scheme: String,
}

impl Default for UiConfig {
    /// A one-second refresh, the dashboard view, and the dark scheme.
    fn default() -> (r: UiConfig)
        ensures
            r.refresh_rate_ms == 1000,
            r.default_view@ == "dashboard"@,
            r.color_scheme@ == "dark"@,
    {
        UiConfig {
            refresh_rate_ms: 1000,
            default_view: "dashboard".to_owned(),
            color_scheme: "dark".to_owned(),
        }
    }
}

/// What was detected about the running system.
#[derive(Clone, Debug)]
pub struct SystemConfig {
    pub kernel_version: String,
    pub use_ebpf_fallback: bool,
    pub check_capabilities: bool,
    pub rocky_linux_mode: bool,
}

/// The whole startup configuration.
#[derive(Clone, Debug)]
pub struct Config {
    pub capture: CaptureConfig,
    pub ui: UiConfig,
    pub system: SystemConfig,
}

} // verus!
