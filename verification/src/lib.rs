//! Valuation of a power-plant tolling agreement by Monte Carlo simulation.
//!
//! Correlated Gaussian innovations drive a geometric Brownian motion for the
//! gas price and a mean-reverting jump diffusion for the power price, both
//! anchored to hourly forward curves; a daily dispatch rule and discounting
//! turn the simulated price surface into an expected net present value.
//!
//! All quantities are carried as signed fixed-point numbers (multiples of
//! `1 / fixed::SCALE`), and every arithmetic step is checked against a global
//! magnitude bound so that numeric degeneracy is reported instead of
//! propagated.

pub mod data_reader;
pub mod errors;
pub mod exp;
pub mod fixed;
pub mod gbm;
pub mod jump;
pub mod laws;
pub mod noise;
pub mod params;
pub mod profit;
pub mod services;
pub mod simulation_result;
pub mod simulator;
pub mod sqrt;
