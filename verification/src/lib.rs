//! Thermal Berry's logic: fan curves with hysteresis, the fan-control
//! decisions behind the UI, telemetry history, and the conversions between
//! the database's rows and the library's values.
use vstd::prelude::*;

pub mod commands;
pub mod config;
pub mod curve;
pub mod db;
pub mod monitor;
pub mod state;
pub mod table;
pub mod text;
pub mod thermal;
pub mod tray;
pub mod uninstall;
pub mod update;

verus! {

} // verus!
