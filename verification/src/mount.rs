//! Mounting the semantic view: the mount options, the interface that each
//! platform's mounting layer offers, and the choice of that layer.
use vstd::prelude::*;
use crate::errors::FuseError;

verus! {

/// How to mount the semantic view.
#[derive(Debug, Clone)]
pub struct MountOptions {
    pub read_only: bool,
    pub allow_other: bool,
    pub auto_unmount: bool,
    pub max_results: usize,
}

impl Default for MountOptions {
    /// Writable, for the mounting user only, unmounted when the process
    /// ends, with up to 100 files per directory.
    fn default() -> (r: MountOptions)
        ensures
            !r.read_only,
            !r.allow_other,
            r.auto_unmount,
            r.max_results == 100,
    {
        MountOptions { read_only: false, allow_other: false, auto_unmount: true, max_results: 100 }
    }
}

/// Mounts and unmounts the semantic view on one platform.
pub trait FuseProvider {
    /// Mounts the view of `source` at `mountpoint`.
    fn mount(&self, source: &str, mountpoint: &str, options: &MountOptions) -> Result<(), FuseError>;

    /// Unmounts the view at `mountpoint`.
    fn unmount(&self, mountpoint: &str) -> Result<(), FuseError>;

    /// Whether a view is mounted at `mountpoint`.
    fn is_mounted(&self, mountpoint: &str) -> bool;
}

/// The mounting layer of Linux (FUSE).
#[derive(Debug, Default)]
pub struct LinuxFuseProvider;

impl LinuxFuseProvider {
    /// The Linux mounting layer.
    pub fn new() -> (r: LinuxFuseProvider) {
        LinuxFuseProvider
    }
}

/// The mounting layer of macOS (macFUSE).
#[derive(Debug, Default)]
pub struct MacFuseProvider;

impl MacFuseProvider {
    /// The macOS mounting layer.
    pub fn new() -> (r: MacFuseProvider) {
        MacFuseProvider
    }
}

/// The mounting layer of Windows, which does not mount yet.
#[derive(Debug, Default)]
pub struct WindowsFuseProvider;

impl WindowsFuseProvider {
    /// The Windows mounting layer.
    pub fn new() -> (r: WindowsFuseProvider) {
        WindowsFuseProvider
    }
}

/// The message with which mounting on Windows is refused.
pub open spec fn windows_mount_message() -> Seq<char> {
    "Windows FUSE support is not yet implemented. Use 'semfs search' for CLI-only mode."@
}

impl FuseProvider for WindowsFuseProvider {
    /// Refuses: mounting is not implemented on Windows.
    fn mount(&self, source: &str, mountpoint: &str, options: &MountOptions) -> (r: Result<(), FuseError>)
        ensures
            r matches Err(FuseError::Mount(m)) && m@ == windows_mount_message(),
    {
        Err(
            FuseError::Mount(
                "Windows FUSE support is not yet implemented. Use 'semfs search' for CLI-only mode.".to_string(),
            ),
        )
    }

    /// Refuses: this platform cannot unmount.
    fn unmount(&self, mountpoint: &str) -> (r: Result<(), FuseError>)
        ensures
            r matches Err(FuseError::UnsupportedPlatform),
    {
        Err(FuseError::UnsupportedPlatform)
    }

    /// Nothing is ever mounted.
    fn is_mounted(&self, mountpoint: &str) -> (r: bool)
        ensures
            !r,
    {
        false
    }
}

/// The mounting layer of the current platform. This library is built
/// without a mounting layer, so there is none.
pub fn create_provider() -> (r: Result<Box<dyn FuseProvider>, FuseError>)
    ensures
        r matches Err(FuseError::UnsupportedPlatform),
{
    Err(FuseError::UnsupportedPlatform)
}

} // verus!
