//! Ingestion of a liquidity pool's swap events: price conversion, the session's
//! decisions, the reconnect policy and the batched hand-off to a sink.
pub mod pipeline;
pub mod price;
pub mod session;
pub mod supervisor;
