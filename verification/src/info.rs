//! Plain data carried between the host environment and its callers.
//!
//! These records hold what the host reports about the running
//! application, its toolchain and its operating system. The storage layer
//! never reads them; the host shell fills them from the environment and
//! hands them over as plain values.

use vstd::prelude::*;

verus! {

/// What the running application says about itself.
#[derive(Debug, PartialEq, Eq)]
pub struct AppInfo {
    /// The application's version.
    pub version: String,
    /// The application's name.
    pub name: String,
    /// The platform it runs on (such as `macos`, `windows`, `linux`).
    pub platform: String,
    /// The processor architecture (such as `x86_64`, `aarch64`).
    pub arch: String,
}

/// The versions the application was built with.
#[derive(Debug, PartialEq, Eq)]
pub struct VersionInfo {
    /// The application's semantic version.
    pub version: String,
    /// The host framework's version.
    pub tauri_version: String,
    /// The toolchain version the application asks for.
    pub rust_version: String,
}

/// What the host reports about the operating system.
#[derive(Debug, PartialEq, Eq)]
pub struct OsInfo {
    /// The platform name.
    pub platform: String,
    /// The processor architecture.
    pub arch: String,
    /// The machine's host name.
    pub hostname: String,
    /// The running process's identifier.
    pub pid: u32,
}

} // verus!
