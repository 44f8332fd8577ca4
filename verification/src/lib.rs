//! WireGuard reachability probing with verified packet, configuration and planning logic.
pub mod app;
pub mod bindings;
pub mod cache;
pub mod checks;
pub mod choice;
pub mod commands;
pub mod config;
pub mod console;
pub mod conversation;
pub mod credentials;
pub mod display;
pub mod engine;
pub mod exchange;
pub mod export;
pub mod finder;
pub mod identity;
pub mod input;
pub mod inventory;
pub mod keys;
pub mod matching;
pub mod net;
pub mod notation;
pub mod order;
pub mod packet;
pub mod paths;
pub mod pieces;
pub mod plans;
pub mod probe;
pub mod probing;
pub mod progress;
pub mod reading;
pub mod report;
pub mod resolver;
pub mod scheduler;
pub mod screens;
pub mod servers;
pub mod session;
pub mod text;
pub mod time;
pub mod tunnel;
pub mod turns;
pub mod ui;
pub mod unicode;
pub mod values;
pub mod verdict;


pub use config::{ConfigError, Ipv4Cidr, ProbeConfig};
pub use probe::ProbePlan;
pub use report::{
    PhaseResult, PhaseStatus, ProbeError, ProbeEvent, ProbeEventKind, ProbeReport, Verdict,
};
