//! Defaults of the configuration.
use vstd::prelude::*;

verus! {

/// The diff tool to use, given which of the preferred ones are installed:
/// `difft`, else `delta`, else `diff`.
pub fn choose_difftool(difft_installed: bool, delta_installed: bool) -> (r: String)
    ensures
        difft_installed ==> r@ == "difft"@,
        !difft_installed && delta_installed ==> r@ == "delta"@,
        !difft_installed && !delta_installed ==> r@ == "diff"@,
{
    if difft_installed {
        "difft".to_owned()
    } else if delta_installed {
        "delta".to_owned()
    } else {
        "diff".to_owned()
    }
}

} // verus!
