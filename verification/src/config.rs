//! Constants shared by the engine, the feed adapter and the standalone tools.

use vstd::prelude::*;

verus! {

/// Ticks that run through the hot path without being committed to the trade log.
pub const WARMUP_PACKETS: u64 = 10;

/// Ticks that the standalone simulator sends after the warmup.
pub const REAL_PACKETS: u64 = 100;

/// Warmup and real ticks together.
pub const TOTAL_PACKETS: u64 = 110;

/// Milliseconds between two real ticks of the standalone simulator.
pub const PACKET_INTERVAL_MS: u64 = 10;

/// Where the ingestor listens.
pub const INGESTOR_ADDR: &'static str = "127.0.0.1:34254";

/// Where the standalone exchange listens for orders.
pub const ORDER_ADDR: &'static str = "127.0.0.1:34255";

/// Where the standalone exchange sends its confirmations.
pub const CONFIRM_ADDR: &'static str = "127.0.0.1:34256";

/// Bytes of an order packet; anything shorter is a heartbeat.
pub const MIN_ORDER_PACKET_SIZE: usize = 24;

/// Packets of one burst of the built-in simulator.
pub const BURST_SIZE: u64 = 50;

/// Bursts that the built-in simulator sends.
pub const NUM_BURSTS: u64 = 20;

/// Milliseconds of silence between two bursts.
pub const BURST_GAP_MS: u64 = 500;

/// Consecutive clean ticks, without a further gap, that have to pass after a sequence gap
/// before the strategy resumes.
pub const CLEAN_SEQ_THRESHOLD: u64 = 5;

/// Net long position at which trading halts.
pub const MAX_POSITION: i64 = 10_000;

/// Sequence gaps above which trading halts.
pub const MAX_GAP_COUNT: u64 = 10;

/// Ring buffer slots reserved for instruments.
pub const MAX_INSTRUMENTS: usize = 8;

/// Bytes of a packet with origin time and transit estimate.
pub const INGEST_PACKET_SIZE_V2: usize = 32;

/// Bytes of a packet that names its instrument.
pub const INGEST_PACKET_SIZE_V3: usize = 33;

/// Bytes of a packet with quote, mark price and funding rate.
pub const INGEST_PACKET_SIZE_V4: usize = 49;

/// Instruments in use: the traded one and the reference.
pub const N_INSTRUMENTS: usize = 2;

/// Host of the spot feed.
pub const KRAKEN_HOST: &'static str = "ws.kraken.com";

/// The traded pair.
pub const KRAKEN_PAIR: &'static str = "XBT/USD";

/// The reference pair.
pub const KRAKEN_REF_PAIR: &'static str = "ETH/USD";

/// Local end of the tunnel to the spot feed.
pub const STUNNEL_ADDR: &'static str = "127.0.0.1:8443";

/// Host of the historical trades.
pub const KRAKEN_API_HOST: &'static str = "api.kraken.com";

/// Local end of the tunnel to the historical trades.
pub const API_STUNNEL_ADDR: &'static str = "127.0.0.1:8444";

/// Host of the futures feed.
pub const KRAKEN_FUTURES_HOST: &'static str = "futures.kraken.com";

/// Local end of the tunnel to the futures feed.
pub const FUTURES_STUNNEL_ADDR: &'static str = "127.0.0.1:8445";

/// The perpetual contract of the futures feed.
pub const KRAKEN_FUTURES_PRODUCT: &'static str = "PF_XBTUSD";

/// Milliseconds between two round-trip probes.
pub const RTT_PING_INTERVAL_MS: u64 = 1000;

/// Default path of a capture.
pub const RECORD_PATH_DEFAULT: &'static str = "recordings/kraken.krkr";

/// Basis points by which a price has to exceed the window to trigger a buy.
pub const SIGNAL_MOMENTUM_BPS: u64 = 10;

/// Candidates per generation of the policy search.
pub const TRAIN_POP_DEFAULT: usize = 256;

/// Generations of the policy search.
pub const TRAIN_GEN_DEFAULT: usize = 40;

/// Seed of the policy search.
pub const TRAIN_SEED_DEFAULT: u64 = 0xC0_FFEE;

/// Default path of the learned policy.
pub const MODEL_PATH_DEFAULT: &'static str = "models/policy.bin";

/// Ticks that a ring buffer holds.
pub const BUFFER_SIZE: usize = 1024;

/// Trades that the trade log holds.
pub const TRADE_LOG_SIZE: usize = 1024;

/// Orders that the order ring holds.
pub const ORDER_RING_SIZE: usize = 1024;

/// Round trips that their log holds.
pub const ROUND_TRIP_LOG_SIZE: usize = 4096;

/// Samples that the signal series holds.
pub const SIGNAL_SERIES_LEN: usize = 2048;

/// Simulated fills that can be in flight.
pub const PENDING_CAP: usize = 256;

} // verus!
