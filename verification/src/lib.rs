//! A verified idle policy: when a machine may darken its panel, sleep or power off.

pub mod action;
pub mod agents;
pub mod block;
pub mod clock;
pub mod config;
pub mod counters;
pub mod course;
pub mod decided;
pub mod decision;
pub mod detect;
pub mod diagnosed;
pub mod doctor;
pub mod engine;
pub mod evidence;
pub mod explained;
pub mod fact;
pub mod gpu;
pub mod laws;
pub mod leases;
pub mod lines;
pub mod manager;
pub mod names;
pub mod observed;
pub mod pending;
pub mod policy;
pub mod process;
pub mod promised;
pub mod reading;
pub mod report;
pub mod resume;
pub mod session;
pub mod sessions;
pub mod shown;
pub mod spelling;
pub mod steam;
pub mod text;
pub mod time;
