//! Root checks. The caller reads the real user id of the process and hands
//! it in; these functions decide.
use vstd::prelude::*;

verus! {

/// Refusal of an operation that needs root.
#[derive(Debug, PartialEq, Eq)]
pub enum PermissionError {
    /// Basalto must run as root (sudo).
    RootRequired,
}

/// Succeeds exactly when the user id is root's (0).
pub fn ensure_root_or_die(uid: u32) -> (r: Result<(), PermissionError>)
    ensures
        r matches Ok(_) <==> uid == 0,
        r matches Err(e) ==> e == PermissionError::RootRequired,
{
    if uid != 0 {
        return Err(PermissionError::RootRequired);
    }
    Ok(())
}

/// Access to a device node: granted (`true`) to root, refused otherwise.
pub fn check_device_node(uid: u32, _path: &str) -> (r: Result<bool, PermissionError>)
    ensures
        uid == 0 ==> r == Ok::<bool, PermissionError>(true),
        uid != 0 ==> r == Err::<bool, PermissionError>(PermissionError::RootRequired),
{
    ensure_root_or_die(uid)?;
    Ok(true)
}

} // verus!
