//! Whether the running toolkit still needs scroll-wheel coalescing: the defect
//! was fixed in release 4.10.1, and the comparison includes the micro version.

use vstd::prelude::*;

verus! {

/// Whether version `major.minor.micro` predates 4.10.1, the release that fixed
/// the defect.
pub fn defect_present(major: u32, minor: u32, micro: u32) -> (r: bool)
    ensures
        r == (major < 4 || (major == 4 && (minor < 10 || (minor == 10 && micro < 1)))),
{
    major < 4 || (major == 4 && (minor < 10 || (minor == 10 && micro < 1)))
}

} // verus!
