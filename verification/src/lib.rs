//! Front-panel status daemon for a network storage device: the verified core.
//!
//! The daemon shows the state of the machine on a two-line display, drives the
//! front LEDs and the fans, reports to the system log, and takes messages from
//! other processes. Everything that it decides is decided here, on plain values;
//! files, commands, the serial port and the socket are left to the program.
//!
//! - `state` is the state machine; `model` states what each event does to it,
//!   and `laws` what holds of it as a whole; `panel_laws` and `health_laws` say
//!   what can be counted on in front of the panel, and of the LEDs.
//! - `hal` and `hwmon` make out screens, sensors and drives from what the
//!   system's tools and files say; `monitor` and `report` draw on them.
//! - `fan`, `fan_control` and `fan_calibrate` are the fans.
//! - `led`, `protocol`, `scroll` and `socket` are the front panel and the
//!   messages; `config`, `daemon` and `syslog` the settings, the main loop and
//!   the log.
//! - `celsius`, `clock`, `number`, `order`, `table` and `text` are what they
//!   are built from.
use vstd::prelude::*;

pub mod celsius;
pub mod clock;
pub mod config;
pub mod daemon;
pub mod fan;
pub mod fan_calibrate;
pub mod fan_control;
pub mod hal;
pub mod health_laws;
pub mod hwmon;
pub mod laws;
pub mod led;
pub mod model;
pub mod monitor;
pub mod number;
pub mod order;
pub mod panel_laws;
pub mod protocol;
pub mod report;
pub mod scroll;
pub mod socket;
pub mod state;
pub mod syslog;
pub mod table;
pub mod text;
