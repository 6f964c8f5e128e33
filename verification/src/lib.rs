//! Synthetic authentication logs: legitimate logins interleaved with simulated
//! brute-force attacks, driven hour by hour from one seeded random generator.

pub mod arrival;
pub mod clock;
pub mod distortion;
pub mod error;
pub mod identity;
pub mod lockout;
pub mod login;
pub mod outcome;
pub mod probability;
pub mod random;
pub mod records;
pub mod simulator;
pub mod text;
pub mod utils;
