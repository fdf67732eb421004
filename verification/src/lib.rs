//! Screen logic of the Vortex network monitor: the sort orders, key handling,
//! row shaping and text formatting behind the picker, dashboard and processes
//! screens, with their contracts.

pub mod common;
pub mod dashboard;
pub mod compare;
pub mod flow;
pub mod text;
pub mod widgets;
pub mod format;
pub mod rounding;
pub mod ratesum;
pub mod conn;
pub mod prefs;
pub mod dashboard_keys;
pub mod pidset;
pub mod processes_keys;
pub mod picker;
pub mod details;
pub mod tables;
pub mod sorting;
pub mod processes;
pub mod live;
pub mod bps;
