//! Who may do what.

use crate::config::Action;
use crate::error::ErrorCode;
use vstd::prelude::*;

verus! {

/// The permission to use the network.
pub const INTERNET_PERMISSION: &'static str = "ohos.permission.INTERNET";

/// The permission to control the downloads of other applications.
pub const MANAGER_DOWNLOAD: &'static str = "ohos.permission.DOWNLOAD_SESSION_MANAGER";

/// The permission to control the uploads of other applications.
pub const MANAGER_UPLOAD: &'static str = "ohos.permission.UPLOAD_SESSION_MANAGER";

/// What a caller may control of the tasks of other applications.
#[derive(Clone, Copy, PartialEq, Eq, Structural, Debug)]
pub enum ManagerPermission {
    NoPermission,
    ManagerDownLoad,
    ManagerUpload,
    ManagerAll,
}

/// Judges the permissions that the platform reports.
pub struct PermissionChecker;

impl PermissionChecker {
    /// What a caller may control, given whether it holds the permission
    /// for downloads and that for uploads.
    pub fn check_manager(manager_download: bool, manager_upload: bool) -> (p: ManagerPermission)
        ensures
            p == (match (manager_download, manager_upload) {
                (true, true) => ManagerPermission::ManagerAll,
                (true, false) => ManagerPermission::ManagerDownLoad,
                (false, true) => ManagerPermission::ManagerUpload,
                (false, false) => ManagerPermission::NoPermission,
            }),
    {
        match (manager_download, manager_upload) {
            (true, true) => ManagerPermission::ManagerAll,
            (true, false) => ManagerPermission::ManagerDownLoad,
            (false, true) => ManagerPermission::ManagerUpload,
            (false, false) => ManagerPermission::NoPermission,
        }
    }

    /// Whether a caller may make and start tasks: it needs the permission
    /// to use the network or that to control downloads.
    pub fn check_access(internet: bool, manager_download: bool) -> (r: Result<(), ErrorCode>)
        ensures
            r == (if internet || manager_download {
                Ok::<(), ErrorCode>(())
            } else {
                Err::<(), ErrorCode>(ErrorCode::Permission)
            }),
    {
        if !internet && !manager_download {
            Err(ErrorCode::Permission)
        } else {
            Ok(())
        }
    }
}

impl ManagerPermission {
    /// The action that the permission covers.
    pub open spec fn spec_get_action(self) -> Option<Action> {
        match self {
            ManagerPermission::NoPermission => None,
            ManagerPermission::ManagerDownLoad => Some(Action::Download),
            ManagerPermission::ManagerUpload => Some(Action::Upload),
            ManagerPermission::ManagerAll => Some(Action::Any),
        }
    }

    pub fn get_action(&self) -> (a: Option<Action>)
        ensures
            a == self.spec_get_action(),
    {
        match self {
            ManagerPermission::NoPermission => None,
            ManagerPermission::ManagerDownLoad => Some(Action::Download),
            ManagerPermission::ManagerUpload => Some(Action::Upload),
            ManagerPermission::ManagerAll => Some(Action::Any),
        }
    }

    /// Whether a caller that may control `caller_action` may control a
    /// task of `task_action`.
    pub fn check_action(caller_action: Action, task_action: Action) -> (b: bool)
        ensures
            b == (caller_action == task_action || caller_action == Action::Any),
    {
        caller_action == task_action || caller_action == Action::Any
    }
}

/// A caller with both permissions controls every task, and one with none
/// controls no task.
pub proof fn lemma_manager_permission()
    ensures
        ManagerPermission::ManagerAll.spec_get_action() == Some(Action::Any),
        ManagerPermission::NoPermission.spec_get_action().is_none(),
{
}

} // verus!
