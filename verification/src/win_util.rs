//! Reading values that the system registry hands back.

use vstd::prelude::*;
use crate::text::string_is;

verus! {

/// UTF-16 units of a registry string of `size` bytes once its trailing NUL
/// is dropped; `None` when it holds no unit at all.
pub fn registry_text_units(size: u32) -> (r: Option<usize>)
    ensures
        size < 2 ==> r is None,
        size >= 2 ==> r == Some((size / 2 - 1) as usize),
{
    if size < 2 {
        None
    } else {
        Some((size / 2 - 1) as usize)
    }
}

/// Whether a runtime's registered product version shows it installed: a
/// non-empty version other than `0.0.0.0`.
pub fn version_present(pv: &str) -> (r: bool)
    ensures
        r == (pv@.len() > 0 && pv@ != "0.0.0.0"@),
{
    !pv.is_empty() && !string_is(pv, "0.0.0.0")
}

/// The share through which a Linux distribution's home directories are
/// reached: `\\wsl.localhost\<distro>\home`.
pub fn wsl_home_root(distro: &str) -> (r: String)
    ensures
        r@ == "\\\\wsl.localhost\\"@ + distro@ + "\\home"@,
{
    let mut s = String::from_str("\\\\wsl.localhost\\");
    s.append(distro);
    s.append("\\home");
    s
}

} // verus!
