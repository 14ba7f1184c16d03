//! The logic of a network monitor: it pings a set of targets in turn, keeps
//! their latency and packet loss, and decides what the dashboard shows and when
//! a notification is due.
//!
//! Everything here works on plain values. Reading the clock is the one thing
//! done outside of them; pinging, the ARP table, the settings file, the
//! notifications and the window belong to the program around this library.

pub mod alerts;
pub mod arp;
pub mod auto_interval;
pub mod bandwidth;
pub mod config;
pub mod history;
pub mod loss;
pub mod monitor;
pub mod names;
pub mod network_info;
pub mod notification;
pub mod ping;
pub mod schedule;
pub mod setup;
pub mod text;
pub mod ui;
