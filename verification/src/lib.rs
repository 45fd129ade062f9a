//! Verified core of a transaction downloader for ICRC token ledgers.

pub mod accounts;
pub mod archive;
pub mod calls;
pub mod chain;
pub mod chunk;
pub mod download;
pub mod manager;
pub mod numbers;
pub mod premint;
pub mod process;
pub mod runtime;
pub mod setup;
pub mod types;
pub mod views;
