//! Platform initialization state, error domains and instance specifiers.

use crate::search::{first_some, lemma_first_some_push};
use vstd::prelude::*;

verus! {

/// Errors of the platform core.
#[derive(Debug, Clone, Copy, PartialEq, Eq, Structural)]
pub enum AraCoreError {
    TbdError,
    PlatformIsNotInitialized,
}

/// Whether the platform has been initialized and not yet deinitialized.
#[derive(Debug)]
pub struct Platform {
    pub initialized: bool,
}

impl Platform {
    pub fn new() -> (r: Self)
        ensures
            !r.initialized,
    {
        Platform { initialized: false }
    }
}

pub fn is_platform_initialized(platform: &Platform) -> (r: bool)
    ensures
        r == platform.initialized,
{
    platform.initialized
}

/// Marks the platform initialized.
pub fn initalize(platform: &mut Platform) -> (r: Result<(), AraCoreError>)
    ensures
        final(platform).initialized,
        r is Ok,
{
    platform.initialized = true;
    Ok(())
}

/// Marks the platform no longer initialized.
pub fn deinitialize(platform: &mut Platform) -> (r: Result<(), AraCoreError>)
    ensures
        !final(platform).initialized,
        r is Ok,
{
    platform.initialized = false;
    Ok(())
}

/// An error domain, known by its identifier.
#[derive(Debug, Clone, PartialEq, Eq, Structural)]
pub struct ErrorDomain {
    id_type: u64,
}

impl ErrorDomain {
    pub fn new(id_type: u64) -> (r: Self)
        ensures
            r.spec_id() == id_type,
    {
        Self { id_type }
    }

    /// The identifier of the domain.
    pub closed spec fn spec_id(&self) -> u64 {
        self.id_type
    }

    #[verifier::when_used_as_spec(spec_id)]
    pub fn id(&self) -> (r: u64)
        ensures
            r == self.spec_id(),
    {
        self.id_type
    }
}

} // verus!
