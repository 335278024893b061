//! The device abstraction (fans and sensors of one vendor) and vendor
//! selection.
use vstd::prelude::*;

pub mod alienware;
pub mod error;

pub use error::ThermalError;

verus! {

/// A single fan: knows nothing about temperature, only about itself.
pub trait Fan: Send + Sync {
    /// Stable identifier within the device, e.g. "fan1".
    fn id(&self) -> &str;

    /// Human-readable name, e.g. "CPU Fan".
    fn label(&self) -> &str;

    fn read_rpm(&self) -> Result<u32, ThermalError>;

    fn read_boost(&self) -> Result<u8, ThermalError>;

    fn set_boost(&self, value: u8) -> Result<(), ThermalError>;

    /// Valid boost range, in case a vendor uses one other than 0-255.
    fn boost_range(&self) -> (u8, u8);

    /// Can the current process write the boost? (/sys permissions)
    fn is_writable(&self) -> bool;

    /// Maximum RPM reported by the driver, if any (to show % of max).
    fn max_rpm(&self) -> Option<u32>;
}

/// A temperature sensor: also knows nothing about fans.
pub trait TempSensor: Send + Sync {
    /// "CPU", "GPU", etc.
    fn label(&self) -> &str;

    /// The temperature in millidegrees Celsius (hwmon's own unit).
    fn read_millicelsius(&self) -> Result<i32, ThermalError>;
}

/// The complete device: groups fans and sensors without knowing their detail.
pub trait ThermalDevice: Send + Sync {
    fn vendor_name(&self) -> &str;

    /// Name of the kernel driver backing this device.
    fn driver_name(&self) -> &str;

    /// Equipment model (DMI), if it can be read.
    fn model(&self) -> Option<String>;

    fn fans(&self) -> Vec<Box<dyn Fan>>;

    fn sensors(&self) -> Vec<Box<dyn TempSensor>>;

    fn supports_auto_curve(&self) -> bool;
}

/// The vendors this build knows, in trial order for automatic detection.
pub open spec fn vendor_names() -> Seq<Seq<char>> {
    seq!["alienware"@]
}

/// A registered vendor.
#[derive(Debug, Clone, Copy, PartialEq, Eq, Structural)]
pub enum Vendor {
    Alienware,
}

/// The registered vendors' names, in trial order for automatic detection.
pub fn vendors() -> (v: Vec<String>)
    ensures
        v@.len() == vendor_names().len(),
        forall|i: int| 0 <= i < v@.len() ==> v@[i]@ == vendor_names()[i],
{
    let mut v: Vec<String> = Vec::new();
    v.push("alienware".to_owned());
    v
}

/// Explicit choice by vendor name, for the manual fallback from Settings.
pub fn parse_vendor(vendor: &str) -> (r: Result<Vendor, ThermalError>)
    ensures
        vendor@ == "alienware"@ ==> r == Ok::<Vendor, ThermalError>(Vendor::Alienware),
        vendor@ != "alienware"@ ==> (r matches Err(ThermalError::UnknownVendor(name)) && name@
            == vendor@),
{
    if crate::text::str_eq(vendor, "alienware") {
        Ok(Vendor::Alienware)
    } else {
        Err(ThermalError::UnknownVendor(vendor.to_owned()))
    }
}

} // verus!
