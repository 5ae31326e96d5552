//! Dispatching trading strategies on candle updates, evaluating them as a
//! remote service, and keeping track of outstanding remote requests.
pub mod decision;
pub mod eval;
pub mod ids;
pub mod market;
pub mod node;
pub mod request_index;
pub mod order;
