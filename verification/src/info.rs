//! A short description of the build, for callers that want to report it.

use vstd::prelude::*;

verus! {

/// Says whether the 128-bit SIMD instructions are in use.
pub fn get_simd_info(simd_enabled: bool) -> (info: String)
    ensures
        simd_enabled ==> info@ == "SIMD128 enabled"@,
        !simd_enabled ==> info@ == "SIMD NOT enabled"@,
{
    if simd_enabled {
        "SIMD128 enabled".to_owned()
    } else {
        "SIMD NOT enabled".to_owned()
    }
}

} // verus!
