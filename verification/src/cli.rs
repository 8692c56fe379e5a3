//! What the command line says: the sources to read and how to read them.

use vstd::prelude::*;

verus! {

/// The architecture of the system for which the profile is generated.
#[allow(non_camel_case_types)]
#[derive(Clone, Copy, Debug, PartialEq, Eq, Structural)]
pub enum Architecture {
    X86_64,
    Arm64,
}

impl Default for Architecture {
    fn default() -> (r: Self)
        ensures
            r == Architecture::X86_64,
    {
        Architecture::X86_64
    }
}

/// The address at which the kernel's text starts on an architecture when it
/// is not shifted.
pub open spec fn base_offset_of(arch: Architecture) -> u64 {
    match arch {
        Architecture::X86_64 => 0xffffffff81000000,
        Architecture::Arm64 => 0xffff800080010000,
    }
}

impl Architecture {
    /// The default base offset of the architecture.
    pub fn base_offset(&self) -> (r: u64)
        ensures
            r == base_offset_of(*self),
    {
        match self {
            Architecture::X86_64 => 0xffffffff81000000,
            Architecture::Arm64 => 0xffff800080010000,
        }
    }
}

/// Generate profiles from BTF type information.
#[derive(Debug)]
pub struct Cli {
    /// BTF file for obtaining type information (can also be a kernel image).
    pub btf: Option<String>,
    /// System.map file for obtaining symbol names and addresses.
    pub map: Option<String>,
    /// Linux banner.
    ///
    /// Takes precedence over all other possible sources of banner
    /// information.
    pub banner: Option<String>,
    /// Print the version.
    pub version: bool,
    /// Display debug output.
    pub verbose: bool,
    /// Display more debug output.
    pub debug: bool,
    /// Define the architecture of the system for which the profile is
    /// generated.
    pub arch: Architecture,
    /// Memory image to extract type and/or symbol information from (not
    /// implemented).
    pub image: Option<String>,
}

} // verus!
