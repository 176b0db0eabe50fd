//! Core of a LAN file sharing application.

pub mod clipboard;
pub mod clock;
pub mod collect;
pub mod config;
pub mod devices;
pub mod exchange;
pub mod frame;
pub mod history;
pub mod ids;
pub mod lifecycle;
pub mod locations;
pub mod model;
pub mod order;
pub mod paths;
pub mod progress;
pub mod receive;
pub mod registry;
pub mod resume;
pub mod send;
pub mod state;
pub mod target;
pub mod text;
pub mod units;
