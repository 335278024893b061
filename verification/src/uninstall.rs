//! Decisions of the uninstaller: how the app was installed and the root
//! script that removes the system-wide pieces.
use vstd::prelude::*;
use crate::commands::UDEV_RULE_PATH;
use crate::text::push_str;

verus! {

/// Name of the binary, the package and the desktop entries.
pub const BIN_NAME: &'static str = "thermal-berry";

/// How the running copy was installed.
#[derive(Debug, Clone, Copy, PartialEq, Eq, Structural)]
pub enum InstallMethod {
    Deb,
    AppImage,
    Unknown,
}

/// An AppImage sets `$APPIMAGE`; otherwise a package known to dpkg means a
/// .deb install.
pub fn install_method(appimage_env_set: bool, dpkg_knows_package: bool) -> (m: InstallMethod)
    ensures
        appimage_env_set ==> m == InstallMethod::AppImage,
        !appimage_env_set && dpkg_knows_package ==> m == InstallMethod::Deb,
        !appimage_env_set && !dpkg_knows_package ==> m == InstallMethod::Unknown,
{
    if appimage_env_set {
        InstallMethod::AppImage
    } else if dpkg_knows_package {
        InstallMethod::Deb
    } else {
        InstallMethod::Unknown
    }
}

/// The root script that removes the udev rule, reloads the rules and, for a
/// .deb install, purges the package.
pub open spec fn removal_script_text(method: InstallMethod) -> Seq<char> {
    "set -e\nrm -f "@ + UDEV_RULE_PATH@
        + "\nudevadm control --reload-rules\nudevadm trigger --subsystem-match=hwmon --action=change\n"@
        + if method == InstallMethod::Deb {
        "dpkg --purge "@ + BIN_NAME@ + "\n"@
    } else {
        Seq::<char>::empty()
    }
}

/// Builds the privileged removal script for `method`.
pub fn removal_script(method: InstallMethod) -> (s: String)
    ensures
        s@ == removal_script_text(method),
{
    let mut s = "set -e\nrm -f ".to_owned();
    push_str(&mut s, UDEV_RULE_PATH);
    push_str(&mut s, "\nudevadm control --reload-rules\nudevadm trigger --subsystem-match=hwmon --action=change\n");
    if method == InstallMethod::Deb {
        push_str(&mut s, "dpkg --purge ");
        push_str(&mut s, BIN_NAME);
        push_str(&mut s, "\n");
    } else {
        assert(s@ + Seq::<char>::empty() =~= s@);
    }
    s
}

} // verus!
