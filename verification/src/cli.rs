//! What the command line needs from the library: the keyring entry of the Météo-France
//! subscription and the release that a self-update installs.

use vstd::prelude::*;
use crate::download::SECRET_ID;

verus! {

/// A credential in the system keyring: its service and its user.
pub struct KeyringEntry {
    pub service: String,
    pub user: String,
}

/// The service under which the subscription is kept in the keyring.
pub const KEYRING_SERVICE: &'static str = "grib2sail";

/// The keyring entry that resetting the Météo-France subscription deletes.
pub fn delete_secrets() -> (e: KeyringEntry)
    ensures
        e.service@ == KEYRING_SERVICE@,
        e.user@ == SECRET_ID@,
{
    KeyringEntry { service: String::from_str(KEYRING_SERVICE), user: String::from_str(SECRET_ID) }
}

/// The GitHub release that a self-update installs, and where the binary lies in its archive.
pub struct UpdatePlan {
    pub repo_owner: String,
    pub repo_name: String,
    pub bin_name: String,
    pub bin_path_in_archive: String,
    pub target: String,
}

/// The name of the binary: with `.exe` on Windows.
pub open spec fn bin_name(windows: bool) -> Seq<char> {
    if windows { "grib2sail-cli.exe"@ } else { "grib2sail-cli"@ }
}

/// Whether `p` is the self-update of the binary built for `target`: the releases of
/// `Ch1nkara/GRIB2Sail`, the binary under `grib2sail-<target>/` in the archive.
pub open spec fn is_update_plan(p: UpdatePlan, target: Seq<char>, windows: bool) -> bool {
    &&& p.repo_owner@ == "Ch1nkara"@
    &&& p.repo_name@ == "GRIB2Sail"@
    &&& p.bin_name@ == bin_name(windows)
    &&& p.bin_path_in_archive@ == "grib2sail-"@ + target + "/"@ + bin_name(windows)
    &&& p.target@ == target
}

/// The self-update of the binary built for `target`.
pub fn update_plan(target: &str, windows: bool) -> (p: UpdatePlan)
    ensures
        is_update_plan(p, target@, windows),
{
    let bin: &str = if windows { "grib2sail-cli.exe" } else { "grib2sail-cli" };
    let mut path = String::from_str("grib2sail-");
    path.append(target);
    path.append("/");
    path.append(bin);
    UpdatePlan {
        repo_owner: String::from_str("Ch1nkara"),
        repo_name: String::from_str("GRIB2Sail"),
        bin_name: String::from_str(bin),
        bin_path_in_archive: path,
        target: String::from_str(target),
    }
}

/// `self_update::get_target`: the target triple that the crate was built for. It is fixed
/// when the binary is built, and differs from machine to machine: nothing is stated of it.
#[verifier::external_body]
fn build_target() -> (t: &'static str) {
    self_update::get_target()
}

/// The self-update of this binary: the release for the target it was built for (`windows`
/// tells whether that target is Windows).
pub fn self_update(windows: bool) -> (p: UpdatePlan)
    ensures
        is_update_plan(p, p.target@, windows),
{
    let target = build_target();
    update_plan(target, windows)
}

} // verus!
