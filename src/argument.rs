//! The command-line settings of Execution Management and their check.

use vstd::prelude::*;

verus! {

/// Root and configuration paths.
#[derive(Debug)]
pub struct EMArgument {
    pub ro_oara_root: String,
    pub rw_oara_root: String,
    pub config: String,
}

/// Which path does not exist.
#[derive(Debug)]
pub enum ArgumentError {
    InvalidROOARARoot(String),
    InvalidRWOARARoot(String),
    InvalidOARAConfig(String),
}

/// Accepts `arg` when its read-only root exists, its read-write root is
/// empty or exists, and its configuration path exists; otherwise names the
/// first path that does not, in that order.
pub fn parse(arg: EMArgument, ro_root_exists: bool, rw_root_exists: bool, config_exists: bool) -> (r: Result<EMArgument, ArgumentError>)
    ensures
        !ro_root_exists ==> (r matches Err(ArgumentError::InvalidROOARARoot(p)) && p@ == arg.ro_oara_root@),
        ro_root_exists && arg.rw_oara_root@.len() > 0 && !rw_root_exists
            ==> (r matches Err(ArgumentError::InvalidRWOARARoot(p)) && p@ == arg.rw_oara_root@),
        ro_root_exists && (arg.rw_oara_root@.len() == 0 || rw_root_exists) && !config_exists
            ==> (r matches Err(ArgumentError::InvalidOARAConfig(p)) && p@ == arg.config@),
        ro_root_exists && (arg.rw_oara_root@.len() == 0 || rw_root_exists) && config_exists
            ==> r == Ok::<EMArgument, ArgumentError>(arg),
{
    if !ro_root_exists {
        return Err(ArgumentError::InvalidROOARARoot(arg.ro_oara_root));
    }
    if !arg.rw_oara_root.as_str().is_empty() && !rw_root_exists {
        return Err(ArgumentError::InvalidRWOARARoot(arg.rw_oara_root));
    }
    if !config_exists {
        return Err(ArgumentError::InvalidOARAConfig(arg.config));
    }
    Ok(arg)
}

} // verus!
