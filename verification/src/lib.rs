//! Verified core of a low-latency trading engine.
//!
//! A feed adapter speaks WebSocket to an exchange (`handshake`, `frame`, `trades`, `live`,
//! `base64`, `sha1`) and sends packets (`packet`, `bytes`), which can be recorded and
//! replayed (`capture`). The engine ingests them (`ingest`), decides tick by tick whether
//! to trade (`strategy`, `model`, `account`), keeps an order book under risk limits (`book`, `logs`,
//! `histogram`), confirms orders (`exchange`) and watches its feed (`watchdog`). When it
//! shuts down it sums up the run (`stats`, `sort`) and reports it (`report`, `journal`,
//! `calendar`, `tables`). Settings and policies are tried over captures (`backtest`, `rng`).
//!
//! Floating-point numbers cross the library as bit patterns. They are compared here
//! (`ieee`); arithmetic on them is done by its callers.

pub mod account;
pub mod affinity;
pub mod backtest;
pub mod base64;
pub mod bench;
pub mod book;
pub mod bytes;
pub mod calendar;
pub mod capture;
pub mod clock;
pub mod config;
pub mod exchange;
pub mod frame;
pub mod handshake;
pub mod histogram;
pub mod ieee;
pub mod ingest;
pub mod journal;
pub mod live;
pub mod logs;
pub mod model;
pub mod packet;
pub mod report;
pub mod rng;
pub mod sha1;
pub mod sort;
pub mod stats;
pub mod strategy;
pub mod tables;
pub mod text;
pub mod trades;
pub mod watchdog;
pub mod wrap;
