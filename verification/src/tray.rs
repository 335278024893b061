//! Decisions of the tray menu: what each entry does and which check marks
//! reflect the configuration.
use vstd::prelude::*;
use crate::config::{AllFansBoost, Config, FanMode};
use crate::text::str_eq;

verus! {

pub const TRAY_ID: &'static str = "main";

pub const MENU_STATUS: &'static str = "status";

pub const MENU_OPEN: &'static str = "open";

pub const MENU_BOOST_ALL: &'static str = "boost_all";

pub const MENU_MODE_AUTO: &'static str = "mode_auto";

pub const MENU_MODE_DISABLED: &'static str = "mode_disabled";

pub const MENU_QUIT: &'static str = "quit";

/// What a click on a tray entry asks for.
#[derive(Debug, Clone, Copy, PartialEq, Eq, Structural)]
pub enum TrayAction {
    /// Show the main window.
    Open,
    /// Quit the app.
    Quit,
    /// Set the "boost all fans" switch (and apply it).
    AllFansBoost { enabled: bool, percent: u8 },
    /// Turn the switch off, which returns the fans to Auto.
    AutoMode { percent: u8 },
    /// Turn the switch off, then hand the fans back to the EC.
    DisableControl { percent: u8 },
    /// Not an entry that acts.
    Nothing,
}

/// The action of the tray entry `id`, given the configuration. The boost
/// entry toggles the switch with the last saved percentage; picking Auto or
/// Disabled also turns the switch off, so only one of the three is ever on.
pub fn menu_action(id: &str, config: &Config) -> (a: TrayAction)
    ensures
        id@ == MENU_OPEN@ ==> a == TrayAction::Open,
        id@ == MENU_QUIT@ ==> a == TrayAction::Quit,
        id@ == MENU_BOOST_ALL@ ==> a == (TrayAction::AllFansBoost {
            enabled: !config.all_fans_boost.enabled,
            percent: config.all_fans_boost.percent,
        }),
        id@ == MENU_MODE_AUTO@ ==> a == (TrayAction::AutoMode {
            percent: config.all_fans_boost.percent,
        }),
        id@ == MENU_MODE_DISABLED@ ==> a == (TrayAction::DisableControl {
            percent: config.all_fans_boost.percent,
        }),
        id@ != MENU_OPEN@ && id@ != MENU_QUIT@ && id@ != MENU_BOOST_ALL@ && id@ != MENU_MODE_AUTO@
            && id@ != MENU_MODE_DISABLED@ ==> a == TrayAction::Nothing,
{
    let percent = config.all_fans_boost.percent;
    proof {
        reveal_strlit("open");
        reveal_strlit("quit");
        reveal_strlit("boost_all");
        reveal_strlit("mode_auto");
        reveal_strlit("mode_disabled");
        assert(MENU_OPEN@[0] == 'o' && MENU_QUIT@[0] == 'q' && MENU_BOOST_ALL@[0] == 'b');
        assert(MENU_MODE_AUTO@[0] == 'm' && MENU_MODE_DISABLED@[0] == 'm');
        assert(MENU_MODE_AUTO@.len() == 9 && MENU_MODE_DISABLED@.len() == 13);
    }
    if str_eq(id, MENU_OPEN) {
        TrayAction::Open
    } else if str_eq(id, MENU_QUIT) {
        TrayAction::Quit
    } else if str_eq(id, MENU_BOOST_ALL) {
        TrayAction::AllFansBoost { enabled: !config.all_fans_boost.enabled, percent }
    } else if str_eq(id, MENU_MODE_AUTO) {
        TrayAction::AutoMode { percent }
    } else if str_eq(id, MENU_MODE_DISABLED) {
        TrayAction::DisableControl { percent }
    } else {
        TrayAction::Nothing
    }
}

/// The check marks of the Auto and Disabled entries for `mode` (Manual is
/// not offered in the tray, so neither is checked then).
pub fn mode_checks(mode: FanMode) -> (c: (bool, bool))
    ensures
        c.0 == (mode == FanMode::Auto),
        c.1 == (mode == FanMode::Disabled),
        !(c.0 && c.1),
{
    (mode == FanMode::Auto, mode == FanMode::Disabled)
}

/// The three check marks of the tray for `config`: "boost all fans", Auto
/// and Disabled, in that order.
pub open spec fn checks_of(config: Config) -> (bool, bool, bool) {
    (config.all_fans_boost.enabled, config.mode == FanMode::Auto, config.mode == FanMode::Disabled)
}

/// The check marks that the tray shows for `config`: after it is built, and
/// again after every click on one of them, whether or not the click's
/// action succeeded.
pub fn tray_checks(config: &Config) -> (c: (bool, bool, bool))
    ensures
        c == checks_of(*config),
{
    let (auto_checked, disabled_checked) = mode_checks(config.mode);
    (config.all_fans_boost.enabled, auto_checked, disabled_checked)
}

/// The configuration that a tray action leaves when it succeeds: the boost
/// switch turned on sets every fan to Manual at the percentage; turned off,
/// and picking Auto, return the fans to Auto; picking Disabled hands them to
/// the EC; the last two also turn the switch off.
pub open spec fn action_outcome(config: Config, action: TrayAction) -> Config {
    match action {
        TrayAction::AllFansBoost { enabled, percent } => Config {
            mode: if enabled { FanMode::Manual } else { FanMode::Auto },
            all_fans_boost: AllFansBoost { enabled, percent },
            ..config
        },
        TrayAction::AutoMode { percent } => Config {
            mode: FanMode::Auto,
            all_fans_boost: AllFansBoost { enabled: false, percent },
            ..config
        },
        TrayAction::DisableControl { percent } => Config {
            mode: FanMode::Disabled,
            all_fans_boost: AllFansBoost { enabled: false, percent },
            ..config
        },
        _ => config,
    }
}

/// After a tray action on one of the three check items succeeds, exactly
/// one of the three is checked: the one that was clicked, unless the click
/// turned the boost switch off, which checks Auto.
pub proof fn lemma_tray_one_check(config: Config, action: TrayAction)
    requires
        action is AllFansBoost || action is AutoMode || action is DisableControl,
    ensures
        ({
            let (b, a, d) = checks_of(action_outcome(config, action));
            &&& (b as int) + (a as int) + (d as int) == 1
            &&& action matches TrayAction::AllFansBoost { enabled, .. } ==> b == enabled && a == !enabled
            &&& action is AutoMode ==> a
            &&& action is DisableControl ==> d
        }),
{
}

} // verus!
