//! A simulated market-data feed: a per-symbol price aggregator with running
//! statistics, and a registry of subscribers whose pushes are metered by
//! credits.
//!
//! Prices are fixed-point integers (see [`price`]). Every public function
//! carries a contract over the mathematical model of its arguments: a price
//! series is a `Seq<Price>`, a symbol name is a `Seq<char>`.

pub mod price;
pub mod query;
pub mod series;
pub mod socket_session;
pub mod stock_data;
pub mod summary;
pub mod text;
pub mod user_store;
pub mod utils;

pub use price::Price;
pub use query::{StockQuery, SummaryResponse};
pub use stock_data::StockData;
pub use summary::{StockSummary, StockTrend};
pub use user_store::{SendClientMessage, User, UserStore};
