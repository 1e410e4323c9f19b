//! Verified control logic for covariance estimation and risk-parity
//! allocation.
//!
//! The estimators work on double-precision numbers. Their arithmetic is left
//! to the host that calls this library; what is proved here are the decisions
//! around that arithmetic: how two doubles compare, which eigenpairs a factor
//! model keeps and in what order, what the shrinkage guards choose, and how the
//! risk-parity iteration starts, steps, renormalises and stops. Doubles cross
//! the boundary as their 64-bit encodings.

pub mod binary64;
pub mod factor;
pub mod risk_parity;
pub mod shrinkage;
