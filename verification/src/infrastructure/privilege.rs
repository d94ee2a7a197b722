//! Whether the `sudo` askpass helper beside the executable may be trusted:
//! a regular executable file that only its owner (the executable's owner)
//! can write, in a directory that only that owner can write, not resolving
//! elsewhere.
use crate::infrastructure::InfrastructureError;
use crate::text::owned;
use vstd::prelude::*;

verus! {

/// The helper's file name, beside the application executable.
pub const HELPER_NAME: &'static str = "kettle-askpass";

/// Whether a mode lets group or others write.
pub open spec fn shared_write(mode: u32) -> bool {
    mode & 0o022u32 != 0
}

/// Whether a mode lets nobody execute.
pub open spec fn no_execute(mode: u32) -> bool {
    mode & 0o111u32 == 0
}

/// The checks on the helper file itself, in order: a regular file, owned by
/// the executable's owner, executable and not writable by group or others.
pub fn check_helper_file(is_file: bool, helper_uid: u32, helper_mode: u32, executable_uid: u32) -> (r: Result<(), InfrastructureError>)
    ensures
        !is_file ==> (r matches Err(InfrastructureError::PrivilegeHelper(m)) && m@
            == "helper is not a regular file"@),
        is_file && helper_uid != executable_uid ==> (r matches Err(
            InfrastructureError::PrivilegeHelper(m),
        ) && m@ == "helper owner differs from the application executable"@),
        is_file && helper_uid == executable_uid && (shared_write(helper_mode) || no_execute(
            helper_mode,
        )) ==> (r matches Err(InfrastructureError::PrivilegeHelper(m)) && m@
            == "helper must be executable and not group/world writable"@),
        is_file && helper_uid == executable_uid && !shared_write(helper_mode) && !no_execute(
            helper_mode,
        ) ==> r is Ok,
{
    if !is_file {
        return Err(InfrastructureError::PrivilegeHelper(owned("helper is not a regular file")));
    }
    if helper_uid != executable_uid {
        return Err(
            InfrastructureError::PrivilegeHelper(
                owned("helper owner differs from the application executable"),
            ),
        );
    }
    if helper_mode & 0o022u32 != 0 || helper_mode & 0o111u32 == 0 {
        return Err(
            InfrastructureError::PrivilegeHelper(
                owned("helper must be executable and not group/world writable"),
            ),
        );
    }
    Ok(())
}

/// The check on the helper's directory: a directory owned by the
/// executable's owner and not writable by group or others.
pub fn check_helper_directory(is_dir: bool, directory_uid: u32, directory_mode: u32, executable_uid: u32) -> (r: Result<(), InfrastructureError>)
    ensures
        is_dir && directory_uid == executable_uid && !shared_write(directory_mode) ==> r is Ok,
        !(is_dir && directory_uid == executable_uid && !shared_write(directory_mode)) ==> (r matches Err(
            InfrastructureError::PrivilegeHelper(m),
        ) && m@ == "helper directory has unsafe ownership or permissions"@),
{
    if !is_dir || directory_uid != executable_uid || directory_mode & 0o022u32 != 0 {
        return Err(
            InfrastructureError::PrivilegeHelper(
                owned("helper directory has unsafe ownership or permissions"),
            ),
        );
    }
    Ok(())
}

/// The check that the helper, with links resolved, is still in the
/// executable's directory.
pub fn check_helper_location(resolves_inside: bool) -> (r: Result<(), InfrastructureError>)
    ensures
        resolves_inside ==> r is Ok,
        !resolves_inside ==> (r matches Err(InfrastructureError::PrivilegeHelper(m)) && m@
            == "helper must not resolve outside the application directory"@),
{
    if resolves_inside {
        Ok(())
    } else {
        Err(
            InfrastructureError::PrivilegeHelper(
                owned("helper must not resolve outside the application directory"),
            ),
        )
    }
}

} // verus!
