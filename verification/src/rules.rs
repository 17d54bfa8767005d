//! The seven detection rules, one module each.
pub mod blacklist;
pub mod deauth;
pub mod flood;
pub mod jamming;
pub mod probe;
pub mod spoofing;
pub mod unauthorized;
