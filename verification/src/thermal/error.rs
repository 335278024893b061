//! The error type shared by the device layer, the database and the commands.
use vstd::prelude::*;
use std::io;
use crate::text::push_str;

verus! {

/// `std::io::Error`, carried through as the source of an I/O failure.
#[verifier::external_type_specification]
#[verifier::external_body]
pub struct ExIoError(io::Error);

/// Everything that can go wrong talking to the hardware, the database or
/// the network.
#[derive(Debug)]
pub enum ThermalError {
    /// No supported thermal device was found on this system.
    DeviceNotFound,
    /// Unknown vendor name.
    UnknownVendor(String),
    /// This device does not support the requested operation.
    Unsupported,
    /// Permission denied writing to `path`.
    PermissionDenied { path: String },
    /// Invalid value.
    InvalidValue(String),
    /// I/O error on `path`.
    Io { path: String, source: io::Error },
    /// Database error.
    Database(String),
    /// Network error.
    Network(String),
}

/// The stable machine-readable name of each kind of error.
pub open spec fn kind_name(e: ThermalError) -> Seq<char> {
    match e {
        ThermalError::DeviceNotFound => "device_not_found"@,
        ThermalError::UnknownVendor(_) => "unknown_vendor"@,
        ThermalError::Unsupported => "unsupported"@,
        ThermalError::PermissionDenied { .. } => "permission_denied"@,
        ThermalError::InvalidValue(_) => "invalid_value"@,
        ThermalError::Io { .. } => "io"@,
        ThermalError::Database(_) => "database"@,
        ThermalError::Network(_) => "network"@,
    }
}

/// `io::Error::kind`, told apart as `ErrorKind::PermissionDenied` or not.
/// Nothing is stated of the answer: `io::Error` has no model here.
#[verifier::external_body]
fn is_permission_denied(source: &io::Error) -> bool {
    matches!(source.kind(), io::ErrorKind::PermissionDenied)
}

/// The text of an `io::Error` (its `Display`). Nothing is stated of it: the
/// operating system's error descriptions vary with the machine.
#[verifier::external_body]
fn io_error_text(source: &io::Error) -> String {
    format!("{}", source)
}

/// The human-readable message of each kind of error; `io_text` is the text
/// of the I/O error that an `Io` error carries.
pub open spec fn message_text(e: ThermalError, io_text: Seq<char>) -> Seq<char> {
    match e {
        ThermalError::DeviceNotFound => "no supported thermal device was found on this system"@,
        ThermalError::UnknownVendor(v) => "unknown vendor \""@ + v@ + "\""@,
        ThermalError::Unsupported => "this device does not support the requested operation"@,
        ThermalError::PermissionDenied { path } => "permission denied writing to "@ + path@,
        ThermalError::InvalidValue(v) => "invalid value: "@ + v@,
        ThermalError::Io { path, .. } => "I/O error on "@ + path@ + ": "@ + io_text,
        ThermalError::Database(d) => "database error: "@ + d@,
        ThermalError::Network(n) => "network error: "@ + n@,
    }
}

impl ThermalError {
    /// Wraps an I/O failure on `path`, promoting a permission failure to
    /// `PermissionDenied` so the UI can offer the udev-rule fix.
    pub fn from_io_parts(path: String, source: io::Error, permission_denied: bool) -> (e: Self)
        ensures
            permission_denied ==> e == (ThermalError::PermissionDenied { path }),
            !permission_denied ==> e == (ThermalError::Io { path, source }),
    {
        if permission_denied {
            ThermalError::PermissionDenied { path }
        } else {
            ThermalError::Io { path, source }
        }
    }

    /// Wraps an io::Error on the file `path` (as displayed), promoting
    /// EACCES/EPERM to `PermissionDenied` so the UI can offer the udev-rule
    /// fix instead of a generic failure message.
    pub fn from_io(path: &str, source: io::Error) -> (e: Self)
        ensures
            (e matches ThermalError::PermissionDenied { path: p } && p@ == path@)
                || (e matches ThermalError::Io { path: p, .. } && p@ == path@),
    {
        let denied = is_permission_denied(&source);
        ThermalError::from_io_parts(path.to_owned(), source, denied)
    }

    /// The human-readable message, shown to the user. For an `Io` error it
    /// ends with the text of the I/O error.
    pub fn message(&self) -> (m: String)
        ensures
            exists|io_text: Seq<char>| m@ == message_text(*self, io_text),
            !(*self is Io) ==> m@ == message_text(*self, Seq::empty()),
    {
        let m = match self {
            ThermalError::DeviceNotFound => "no supported thermal device was found on this system".to_owned(),
            ThermalError::UnknownVendor(v) => {
                let mut m = "unknown vendor \"".to_owned();
                push_str(&mut m, v.as_str());
                push_str(&mut m, "\"");
                m
            },
            ThermalError::Unsupported => "this device does not support the requested operation".to_owned(),
            ThermalError::PermissionDenied { path } => {
                let mut m = "permission denied writing to ".to_owned();
                push_str(&mut m, path.as_str());
                m
            },
            ThermalError::InvalidValue(v) => {
                let mut m = "invalid value: ".to_owned();
                push_str(&mut m, v.as_str());
                m
            },
            ThermalError::Io { path, source } => {
                let mut m = "I/O error on ".to_owned();
                push_str(&mut m, path.as_str());
                push_str(&mut m, ": ");
                let text = io_error_text(source);
                push_str(&mut m, text.as_str());
                assert(m@ == message_text(*self, text@));
                m
            },
            ThermalError::Database(d) => {
                let mut m = "database error: ".to_owned();
                push_str(&mut m, d.as_str());
                m
            },
            ThermalError::Network(n) => {
                let mut m = "network error: ".to_owned();
                push_str(&mut m, n.as_str());
                m
            },
        };
        proof {
            if !(*self is Io) {
                assert(m@ == message_text(*self, Seq::empty()));
            }
        }
        m
    }

    /// Machine-readable kind, sent to the UI next to the message.
    pub fn kind(&self) -> (k: &'static str)
        ensures
            k@ == kind_name(*self),
    {
        match self {
            ThermalError::DeviceNotFound => "device_not_found",
            ThermalError::UnknownVendor(_) => "unknown_vendor",
            ThermalError::Unsupported => "unsupported",
            ThermalError::PermissionDenied { .. } => "permission_denied",
            ThermalError::InvalidValue(_) => "invalid_value",
            ThermalError::Io { .. } => "io",
            ThermalError::Database(_) => "database",
            ThermalError::Network(_) => "network",
        }
    }
}

} // verus!
