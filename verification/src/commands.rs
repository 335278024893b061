//! The decisions behind the UI commands: validation, which boost each fan
//! gets, and how the shared state changes. Writing to the fans and persisting
//! the configuration happen around these calls.
use vstd::prelude::*;
use crate::config::{AllFansBoost, Config, FanMode};
use crate::curve::{
    boost_for, percent_to_boost, sort_by_temp, sort_points, CurvePoint,
};
use crate::state::Inner;
use crate::table::FanTable;
use crate::text::{decimal, decimal_string, push_str, str_eq};
use crate::thermal::{vendor_names, vendors, ThermalError};

verus! {

/// What the decisions need to know of one fan of the device.
#[derive(Debug)]
pub struct FanSlot {
    pub id: String,
    pub boost_range: (u8, u8),
}

/// Every fan's boost range is a proper interval.
pub open spec fn ranges_valid(fans: Seq<FanSlot>) -> bool {
    forall|i: int| 0 <= i < fans.len() ==> fans[i].boost_range.0 <= fans[i].boost_range.1
}

/// One fan as shown in the device panel.
#[derive(Debug, Clone)]
pub struct FanInfo {
    pub id: String,
    pub label: String,
    pub max_rpm: Option<u32>,
    pub writable: bool,
}

/// The device as shown in the UI.
#[derive(Debug, Clone)]
pub struct DeviceInfo {
    pub vendor: String,
    pub driver: String,
    pub model: Option<String>,
    pub fans: Vec<FanInfo>,
    pub sensors: Vec<String>,
    pub supports_auto_curve: bool,
    /// true if all fans accept writes (udev rule installed).
    pub write_access: bool,
    /// Vendors available for the manual fallback in Settings.
    pub available_vendors: Vec<String>,
}

/// The message of the error for a percentage above 100.
pub open spec fn percent_error_text(percent: u8) -> Seq<char> {
    decimal(percent as nat) + "% > 100%"@
}

/// Rejects a percentage above 100.
pub fn check_percent(percent: u8) -> (r: Result<(), ThermalError>)
    ensures
        percent <= 100 <==> r is Ok,
        percent > 100 ==> (r matches Err(ThermalError::InvalidValue(m)) && m@
            == percent_error_text(percent)),
{
    if percent > 100 {
        let mut m = decimal_string(percent as u64);
        push_str(&mut m, "% > 100%");
        return Err(ThermalError::InvalidValue(m));
    }
    Ok(())
}

/// Write access holds when there is at least one fan and every fan accepts
/// writes.
pub open spec fn all_writable(writable: Seq<bool>) -> bool {
    writable.len() > 0 && forall|i: int| 0 <= i < writable.len() ==> writable[i]
}

/// Write access holds exactly when there is a fan and none of them refuses
/// writes: a single fan that is not writable, wherever it stands, denies it.
pub proof fn lemma_write_access_needs_every_fan(writable: Seq<bool>, i: int)
    ensures
        all_writable(writable) <==> writable.len() > 0 && !writable.contains(false),
        0 <= i < writable.len() && !writable[i] ==> !all_writable(writable),
{
    if writable.contains(false) {
        let k = choose|k: int| 0 <= k < writable.len() && writable[k] == false;
        assert(!writable[k]);
    }
    if writable.len() > 0 && !writable.contains(false) {
        assert forall|k: int| 0 <= k < writable.len() implies writable[k] by {
            if !writable[k] {
                assert(writable.contains(false));
            }
        }
    }
}

/// true if there are fans and all of them accept writes (udev rule
/// installed).
pub fn write_access(writable: &[bool]) -> (r: bool)
    ensures
        r == all_writable(writable@),
{
    let n = writable.len();
    if n == 0 {
        return false;
    }
    for i in 0..n
        invariant
            n == writable@.len(),
            forall|k: int| 0 <= k < i ==> writable@[k],
    {
        if !writable[i] {
            return false;
        }
    }
    true
}

/// Assembles the device panel from what was read of the device.
pub fn device_info(
    vendor: String,
    driver: String,
    model: Option<String>,
    fans: Vec<FanInfo>,
    sensors: Vec<String>,
    supports_auto_curve: bool,
) -> (d: DeviceInfo)
    ensures
        d.vendor == vendor,
        d.driver == driver,
        d.model == model,
        d.fans == fans,
        d.sensors == sensors,
        d.supports_auto_curve == supports_auto_curve,
        d.write_access == all_writable(fans@.map_values(|f: FanInfo| f.writable)),
        d.available_vendors@.len() == vendor_names().len(),
        forall|i: int|
            0 <= i < vendor_names().len() ==> d.available_vendors@[i]@ == vendor_names()[i],
{
    let mut writable: Vec<bool> = Vec::new();
    let n = fans.len();
    for i in 0..n
        invariant
            n == fans@.len(),
            writable@ == fans@.take(i as int).map_values(|f: FanInfo| f.writable),
    {
        writable.push(fans[i].writable);
        assert(fans@.take(i + 1).map_values(|f: FanInfo| f.writable) =~= fans@.take(
            i as int,
        ).map_values(|f: FanInfo| f.writable).push(fans@[i as int].writable));
    }
    assert(fans@.take(n as int) =~= fans@);
    let write_access = write_access(writable.as_slice());
    DeviceInfo {
        vendor,
        driver,
        model,
        fans,
        sensors,
        supports_auto_curve,
        write_access,
        available_vendors: vendors(),
    }
}

/// The message of the error for an unknown fan id.
pub open spec fn unknown_fan_text(fan_id: Seq<char>) -> Seq<char> {
    "unknown fan: "@ + fan_id
}

/// Position of the first fan whose id is `fan_id`.
pub fn fan_index(fan_ids: &[String], fan_id: &str) -> (r: Result<usize, ThermalError>)
    ensures
        match r {
            Ok(i) => i < fan_ids@.len() && fan_ids@[i as int]@ == fan_id@ && forall|k: int|
                0 <= k < i ==> fan_ids@[k]@ != fan_id@,
            Err(e) => (forall|k: int| 0 <= k < fan_ids@.len() ==> fan_ids@[k]@ != fan_id@) && (e matches ThermalError::InvalidValue(m) && m@ == unknown_fan_text(fan_id@)),
        },
{
    let n = fan_ids.len();
    for i in 0..n
        invariant
            n == fan_ids@.len(),
            forall|k: int| 0 <= k < i ==> fan_ids@[k]@ != fan_id@,
    {
        if str_eq(fan_ids[i].as_str(), fan_id) {
            return Ok(i);
        }
    }
    let mut m = "unknown fan: ".to_owned();
    push_str(&mut m, fan_id);
    Err(ThermalError::InvalidValue(m))
}

/// The percentage saved for a fan in Manual mode (0 if none was saved).
pub open spec fn saved_percent(boosts: Map<Seq<char>, u8>, id: Seq<char>) -> int {
    if boosts.contains_key(id) {
        boosts[id] as int
    } else {
        0
    }
}

/// The boost written to fan `f` when `mode` is applied (not used for Auto).
pub open spec fn mode_boost(boosts: Map<Seq<char>, u8>, mode: FanMode, f: FanSlot) -> int {
    if mode == FanMode::Manual {
        boost_for(saved_percent(boosts, f.id@), f.boost_range.0 as int, f.boost_range.1 as int)
    } else {
        f.boost_range.0 as int
    }
}

/// The boosts that set every fan to the same percentage (the "boost all
/// fans" switch).
pub fn uniform_boosts(percent: u8, fans: &[FanSlot]) -> (boosts: Vec<u8>)
    requires
        ranges_valid(fans@),
    ensures
        boosts@.len() == fans@.len(),
        forall|i: int|
            0 <= i < fans@.len() ==> boosts@[i] == boost_for(
                percent as int,
                fans@[i].boost_range.0 as int,
                fans@[i].boost_range.1 as int,
            ),
{
    let mut boosts: Vec<u8> = Vec::new();
    let n = fans.len();
    for i in 0..n
        invariant
            n == fans@.len(),
            ranges_valid(fans@),
            boosts@.len() == i,
            forall|k: int|
                0 <= k < i ==> boosts@[k] == boost_for(
                    percent as int,
                    fans@[k].boost_range.0 as int,
                    fans@[k].boost_range.1 as int,
                ),
    {
        boosts.push(percent_to_boost(percent, fans[i].boost_range));
    }
    boosts
}

/// The message of the error for a curve with a percentage above 100.
pub open spec fn curve_percent_text() -> Seq<char> {
    "percent > 100 in the curve"@
}

/// The message of the error for a curve with fewer than 2 points.
pub open spec fn curve_length_text() -> Seq<char> {
    "a curve needs at least 2 points"@
}

/// Some point of the curve has a percentage above 100.
pub open spec fn has_percent_over_100(points: Seq<CurvePoint>) -> bool {
    exists|i: int| 0 <= i < points.len() && points[i].percent > 100
}

/// `c` with `curves` replaced.
pub open spec fn with_curves(c: Config, curves: FanTable<Vec<CurvePoint>>) -> Config {
    Config { curves, ..c }
}

/// `c` with `manual_boosts` replaced.
pub open spec fn with_manual_boosts(c: Config, manual_boosts: FanTable<u8>) -> Config {
    Config { manual_boosts, ..c }
}

impl Inner {
    /// The boosts to write, fan by fan, to apply `mode`: none for Auto (the
    /// monitor loop applies the curve on each tick), the last saved
    /// percentage (0 if none) for Manual, the bottom of the range for
    /// Disabled (hands full control back to the EC).
    pub fn mode_boosts(&self, mode: FanMode, fans: &[FanSlot]) -> (boosts: Vec<u8>)
        requires
            mode == FanMode::Manual ==> ranges_valid(fans@),
        ensures
            mode == FanMode::Auto ==> boosts@.len() == 0,
            mode != FanMode::Auto ==> boosts@.len() == fans@.len(),
            mode != FanMode::Auto ==> forall|i: int|
                0 <= i < fans@.len() ==> boosts@[i] == mode_boost(
                    self.config.manual_boosts.map(),
                    mode,
                    fans@[i],
                ),
    {
        let mut boosts: Vec<u8> = Vec::new();
        if mode == FanMode::Auto {
            return boosts;
        }
        let n = fans.len();
        for i in 0..n
            invariant
                n == fans@.len(),
                mode == FanMode::Manual ==> ranges_valid(fans@),
                mode != FanMode::Auto,
                boosts@.len() == i,
                forall|k: int|
                    0 <= k < i ==> boosts@[k] == mode_boost(
                        self.config.manual_boosts.map(),
                        mode,
                        fans@[k],
                    ),
        {
            let fan = &fans[i];
            let b = if mode == FanMode::Manual {
                let pct: u8 = match self.config.manual_boosts.get(fan.id.as_str()) {
                    Some(p) => *p,
                    None => 0,
                };
                percent_to_boost(pct, fan.boost_range)
            } else {
                fan.boost_range.0
            };
            boosts.push(b);
        }
        boosts
    }

    /// Records that `mode` is now active, once its boosts were written:
    /// forgets every fan's hysteresis so the first curve tick applies
    /// immediately.
    pub fn finish_mode(&mut self, mode: FanMode)
        ensures
            final(self).config == (Config { mode, ..old(self).config }),
            final(self).curve_states.map() == Map::<Seq<char>, crate::curve::Hysteresis>::empty(),
            final(self).history == old(self).history,
    {
        self.curve_states.clear();
        self.config.mode = mode;
    }

    /// Records a manual boost for one fan without changing the mode.
    pub fn record_manual_boost(&mut self, fan_id: String, percent: u8)
        ensures
            final(self).config.manual_boosts.map() == old(self).config.manual_boosts.map().insert(
                fan_id@,
                percent,
            ),
            final(self).config == with_manual_boosts(
                old(self).config,
                final(self).config.manual_boosts,
            ),
            final(self).curve_states == old(self).curve_states,
            final(self).history == old(self).history,
    {
        self.config.manual_boosts.insert(fan_id, percent);
    }

    /// Records the manual boost of one fan that was just written, which
    /// switches the mode to Manual.
    pub fn record_fan_boost(&mut self, fan_id: String, percent: u8)
        ensures
            final(self).config.manual_boosts.map() == old(self).config.manual_boosts.map().insert(
                fan_id@,
                percent,
            ),
            final(self).config == (Config {
                mode: FanMode::Manual,
                manual_boosts: final(self).config.manual_boosts,
                ..old(self).config
            }),
            final(self).curve_states == old(self).curve_states,
            final(self).history == old(self).history,
    {
        self.config.mode = FanMode::Manual;
        self.config.manual_boosts.insert(fan_id, percent);
    }

    /// Saves the curve of a fan: every percentage must be at most 100 and
    /// there must be at least 2 points. The points are stored in temperature
    /// order and the fan's hysteresis starts over.
    pub fn store_curve(&mut self, fan_id: String, points: Vec<CurvePoint>) -> (r: Result<
        (),
        ThermalError,
    >)
        ensures
            has_percent_over_100(points@) ==> (r matches Err(ThermalError::InvalidValue(m)) && m@
                == curve_percent_text()),
            !has_percent_over_100(points@) && points@.len() < 2 ==> (r matches Err(
                ThermalError::InvalidValue(m),
            ) && m@ == curve_length_text()),
            r is Err ==> *final(self) == *old(self),
            r is Ok <==> !has_percent_over_100(points@) && points@.len() >= 2,
            r is Ok ==> {
                &&& final(self).config.curves.map() == old(self).config.curves.map().insert(
                    fan_id@,
                    final(self).config.curves.map()[fan_id@],
                )
                &&& final(self).config.curves.map()[fan_id@]@ == sort_by_temp(points@)
                &&& final(self).config == with_curves(old(self).config, final(self).config.curves)
                &&& final(self).curve_states.map() == old(self).curve_states.map().remove(fan_id@)
                &&& final(self).history == old(self).history
            },
    {
        let n = points.len();
        for i in 0..n
            invariant
                n == points@.len(),
                forall|k: int| 0 <= k < i ==> points@[k].percent <= 100,
        {
            if points[i].percent > 100 {
                return Err(ThermalError::InvalidValue("percent > 100 in the curve".to_owned()));
            }
        }
        if n < 2 {
            return Err(ThermalError::InvalidValue("a curve needs at least 2 points".to_owned()));
        }
        let sorted = sort_points(points.as_slice());
        let ghost s = sorted;
        self.curve_states.remove(fan_id.as_str());
        self.config.curves.insert(fan_id, sorted);
        proof {
            assert(self.config.curves.map()[fan_id@] == s);
        }
        Ok(())
    }

    /// Records the state of the "boost all fans" switch.
    pub fn set_all_fans_boost(&mut self, enabled: bool, percent: u8)
        ensures
            final(self).config == (Config {
                all_fans_boost: AllFansBoost { enabled, percent },
                ..old(self).config
            }),
            final(self).curve_states == old(self).curve_states,
            final(self).history == old(self).history,
    {
        self.config.all_fans_boost = AllFansBoost { enabled, percent };
    }

    /// Records the vendor chosen manually in Settings.
    pub fn set_vendor_override(&mut self, vendor: String)
        ensures
            final(self).config == (Config { vendor_override: Some(vendor), ..old(self).config }),
            final(self).curve_states == old(self).curve_states,
            final(self).history == old(self).history,
    {
        self.config.vendor_override = Some(vendor);
    }
}

// ---------------------------------------------------------------------------
// udev rule installation
// ---------------------------------------------------------------------------

/// Where the udev rule that makes fan*_boost writable is installed.
pub const UDEV_RULE_PATH: &'static str = "/etc/udev/rules.d/60-thermal-berry.rules";

/// Whether `c` is alphabetic or numeric in Unicode's sense
/// (`char::is_alphanumeric`).
pub uninterp spec fn unicode_alphanumeric(c: char) -> bool;

/// `char::is_alphanumeric`: Unicode's Alphabetic or Numeric property.
#[verifier::external_body]
fn is_alphanumeric(c: char) -> (r: bool)
    ensures
        r == unicode_alphanumeric(c),
{
    c.is_alphanumeric()
}

/// A character allowed in a user name: alphanumeric, '.', '-' or '_'.
pub open spec fn user_char_ok(c: char) -> bool {
    unicode_alphanumeric(c) || c == '.' || c == '-' || c == '_'
}

/// Whether `user` is safe to put in the rule and the shell script.
pub fn user_is_valid(user: &str) -> (r: bool)
    ensures
        r == forall|i: int| 0 <= i < user@.len() ==> user_char_ok(#[trigger] user@[i]),
{
    let n = user.unicode_len();
    for i in 0..n
        invariant
            n == user@.len(),
            forall|k: int| 0 <= k < i ==> user_char_ok(#[trigger] user@[k]),
    {
        let c = user.get_char(i);
        if !(is_alphanumeric(c) || c == '.' || c == '-' || c == '_') {
            assert(!user_char_ok(user@[i as int]));
            return false;
        }
    }
    true
}

/// `s` with every single quote written as `'\''`, so that it can stand
/// between single quotes in a shell script.
pub open spec fn shell_escape(s: Seq<char>) -> Seq<char>
    decreases s.len(),
{
    if s.len() == 0 {
        Seq::empty()
    } else {
        shell_escape(s.drop_last()) + if s.last() == '\'' {
            "'\\''"@
        } else {
            seq![s.last()]
        }
    }
}

/// Escapes single quotes for a single-quoted shell word.
pub fn shell_escaped(s: &str) -> (r: String)
    ensures
        r@ == shell_escape(s@),
{
    let n = s.unicode_len();
    let mut r = String::new();
    for i in 0..n
        invariant
            n == s@.len(),
            r@ == shell_escape(s@.take(i as int)),
    {
        let c = s.get_char(i);
        proof {
            assert(s@.take(i + 1).drop_last() =~= s@.take(i as int));
            assert(s@.take(i + 1).last() == c);
        }
        if c == '\'' {
            push_str(&mut r, "'\\''");
        } else {
            crate::text::push_char(&mut r, c);
            assert(r@ =~= shell_escape(s@.take(i as int)) + seq![c]);
        }
    }
    proof {
        assert(s@.take(n as int) =~= s@);
    }
    r
}

/// The udev rule that gives `user` ownership of the Alienware fan boost
/// attributes.
pub open spec fn udev_rule_text(user: Seq<char>) -> Seq<char> {
    "# Installed by thermal-berry: allows controlling fan boost without root (user: "@ + user
        + ")\nACTION==\"add|change\", SUBSYSTEM==\"hwmon\", ATTR{name}==\"alienware_wmi\", RUN+=\"/bin/sh -c 'chown "@
        + user + " /sys%p/fan*_boost'\"\n"@
}

/// The script, run as root, that installs the rule, reloads the rules and
/// applies them at once.
pub open spec fn udev_script_text(user: Seq<char>) -> Seq<char> {
    "set -e\nprintf '%s' '"@ + shell_escape(udev_rule_text(user)) + "' > "@ + UDEV_RULE_PATH@
        + "\nudevadm control --reload-rules\nudevadm trigger --subsystem-match=hwmon --action=change\n"@
}

/// The message of the error for a user name that is not safe.
pub open spec fn invalid_user_text(user: Seq<char>) -> Seq<char> {
    "invalid user: "@ + user
}

/// The root script that installs the udev rule for `user`, once the name
/// is known to be safe in it.
pub fn udev_install_script(user: &str) -> (r: Result<String, ThermalError>)
    ensures
        r is Ok <==> forall|i: int| 0 <= i < user@.len() ==> user_char_ok(#[trigger] user@[i]),
        r matches Ok(script) ==> script@ == udev_script_text(user@),
        r is Err ==> (r matches Err(ThermalError::InvalidValue(m)) && m@ == invalid_user_text(
            user@,
        )),
{
    if !user_is_valid(user) {
        let mut m = "invalid user: ".to_owned();
        push_str(&mut m, user);
        return Err(ThermalError::InvalidValue(m));
    }
    let mut rule = "# Installed by thermal-berry: allows controlling fan boost without root (user: ".to_owned();
    push_str(&mut rule, user);
    push_str(&mut rule, ")\nACTION==\"add|change\", SUBSYSTEM==\"hwmon\", ATTR{name}==\"alienware_wmi\", RUN+=\"/bin/sh -c 'chown ");
    push_str(&mut rule, user);
    push_str(&mut rule, " /sys%p/fan*_boost'\"\n");
    let escaped = shell_escaped(rule.as_str());
    let mut script = "set -e\nprintf '%s' '".to_owned();
    push_str(&mut script, escaped.as_str());
    push_str(&mut script, "' > ");
    push_str(&mut script, UDEV_RULE_PATH);
    push_str(&mut script, "\nudevadm control --reload-rules\nudevadm trigger --subsystem-match=hwmon --action=change\n");
    Ok(script)
}

/// The outcome of a privileged script run through pkexec: success, or
/// `PermissionDenied` on the rule file (the dialog was cancelled or the user
/// is not authorized).
pub fn privileged_outcome(success: bool) -> (r: Result<(), ThermalError>)
    ensures
        success <==> r is Ok,
        !success ==> (r matches Err(ThermalError::PermissionDenied { path }) && path@
            == UDEV_RULE_PATH@),
{
    if success {
        Ok(())
    } else {
        Err(ThermalError::PermissionDenied { path: UDEV_RULE_PATH.to_owned() })
    }
}

} // verus!
