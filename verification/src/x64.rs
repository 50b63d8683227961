//! The X86_64 target.

use vstd::prelude::*;
use crate::settings::Flags;

verus! {

/// An X64 backend.
pub struct X64Backend {
    shared_flags: Flags,
    isa_flags: Flags,
}

impl X64Backend {
    /// The settings that all targets share.
    pub closed spec fn shared(&self) -> Flags {
        self.shared_flags
    }

    /// The settings of this target.
    pub closed spec fn isa(&self) -> Flags {
        self.isa_flags
    }

    /// Create a new X64 backend with the given (shared) flags.
    pub fn new_with_flags(isa_flags: Flags, shared_flags: Flags) -> (backend: Self)
        ensures
            backend.isa() == isa_flags,
            backend.shared() == shared_flags,
    {
        Self { isa_flags, shared_flags }
    }

    /// The settings that all targets share.
    pub fn flags(&self) -> (flags: &Flags)
        ensures
            *flags == self.shared(),
    {
        &self.shared_flags
    }

    /// The settings of this target, whose flags are the ISA predicates that
    /// encoding lists test.
    pub fn isa_flags(&self) -> (flags: &Flags)
        ensures
            *flags == self.isa(),
    {
        &self.isa_flags
    }

    /// The name of the target.
    pub fn name(&self) -> (name: &'static str)
        ensures
            name@ == "x64"@,
    {
        "x64"
    }
}

} // verus!
