//! A price-time-priority limit-order matching engine for a single instrument.

pub mod book;
pub mod chain;
pub mod depth;
pub mod exchange;
pub mod laws;
pub mod matching;
pub mod order;
pub mod queue;
pub mod side;
pub mod tracker;

pub use book::{Book, BookView};
pub use chain::{Chain, BBO};
pub use order::{Order, OrderError, Trade};
pub use exchange::{ClientMsg, DepthSnapshot, Outcome, Request, Sequencer, ServerMsg};
pub use side::Side;
pub use tracker::OrderTracker;
