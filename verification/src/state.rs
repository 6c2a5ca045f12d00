//! The application's mount status and how mounting and unmounting move it.
use vstd::prelude::*;
use crate::text::{push_str, string_from_str};

verus! {

/// Whether the drive is mounted.
#[derive(PartialEq, Eq, Structural, Clone, Copy, Debug)]
pub enum MountStatus {
    Disconnected,
    Connecting,
    Mounted,
    Error,
}

/// What the interface shows about the drive.
pub struct AppStatus {
    pub mount_status: MountStatus,
    pub mount_point: String,
    pub error_message: Option<String>,
}

/// The message while FUSE-T is installed.
pub open spec fn installing_text() -> Seq<char> {
    "Installing FUSE-T..."@
}

/// The message when installing FUSE-T failed.
pub open spec fn install_failed_text(e: Seq<char>) -> Seq<char> {
    "Failed to install FUSE-T: "@ + e + ". Install manually: brew install --cask fuse-t"@
}

impl AppStatus {
    /// Disconnected at `mount_point`, without error.
    pub fn new(mount_point: String) -> (s: Self)
        ensures
            s.mount_status == MountStatus::Disconnected,
            s.mount_point@ == mount_point@,
            s.error_message is None,
    {
        AppStatus { mount_status: MountStatus::Disconnected, mount_point, error_message: None }
    }

    /// Mounting has nothing to do when the drive is already mounted.
    pub fn needs_mount(&self) -> (r: bool)
        ensures
            r == (self.mount_status != MountStatus::Mounted),
    {
        self.mount_status != MountStatus::Mounted
    }

    /// Unmounting has nothing to do when the drive is disconnected.
    pub fn needs_unmount(&self) -> (r: bool)
        ensures
            r == (self.mount_status != MountStatus::Disconnected),
    {
        self.mount_status != MountStatus::Disconnected
    }

    /// FUSE-T is being installed: connecting, with a message.
    pub fn begin_fuse_install(&mut self)
        ensures
            final(self).mount_status == MountStatus::Connecting,
            final(self).error_message matches Some(m) && m@ == installing_text(),
            final(self).mount_point == old(self).mount_point,
    {
        self.mount_status = MountStatus::Connecting;
        self.error_message = Some(string_from_str("Installing FUSE-T..."));
    }

    /// Installing FUSE-T failed with `e`.
    pub fn fuse_install_failed(&mut self, e: &str)
        ensures
            final(self).mount_status == MountStatus::Error,
            final(self).error_message matches Some(m) && m@ == install_failed_text(e@),
            final(self).mount_point == old(self).mount_point,
    {
        self.mount_status = MountStatus::Error;
        let mut m = string_from_str("Failed to install FUSE-T: ");
        push_str(&mut m, e);
        push_str(&mut m, ". Install manually: brew install --cask fuse-t");
        self.error_message = Some(m);
    }

    /// FUSE-T is installed: the message goes, the status stays.
    pub fn fuse_installed(&mut self)
        ensures
            final(self).mount_status == old(self).mount_status,
            final(self).error_message is None,
            final(self).mount_point == old(self).mount_point,
    {
        self.error_message = None;
    }

    /// The drive is mounted.
    pub fn mounted(&mut self)
        ensures
            final(self).mount_status == MountStatus::Mounted,
            final(self).error_message is None,
            final(self).mount_point == old(self).mount_point,
    {
        self.mount_status = MountStatus::Mounted;
        self.error_message = None;
    }

    /// Mounting failed with `e`.
    pub fn mount_failed(&mut self, e: String)
        ensures
            final(self).mount_status == MountStatus::Error,
            final(self).error_message matches Some(m) && m@ == e@,
            final(self).mount_point == old(self).mount_point,
    {
        self.mount_status = MountStatus::Error;
        self.error_message = Some(e);
    }

    /// The drive is unmounted.
    pub fn unmounted(&mut self)
        ensures
            final(self).mount_status == MountStatus::Disconnected,
            final(self).error_message is None,
            final(self).mount_point == old(self).mount_point,
    {
        self.mount_status = MountStatus::Disconnected;
        self.error_message = None;
    }
}

} // verus!
