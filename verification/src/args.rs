//! The arguments that the command-line front end resolves before a patch
//! is applied: three file paths, one per byte store.

use vstd::prelude::*;

verus! {

/// The three paths a patching run works with.
pub struct Args {
    /// Path to the IPS patch stream.
    pub patch: String,
    /// Path to the base image being patched.
    pub rom: String,
    /// Path the patched image is written to.
    pub target: String,
}

impl Args {
    /// Usage text for the command-line front end.
    pub fn help() -> &'static str {
        "
Utility for patching ROM files with IPS patch files

Usage:
  ./<executable> --patch my-patch-file.ips --rom my-rom-file.rom --target my-patched-rom.rom

Arguments:
  -p, --patch    Path to an IPS encoded patch file
  -r, --rom      Path to a ROM file to patch
  -t, --target   Path to write the patched ROM file to
    "
    }
}

} // verus!
