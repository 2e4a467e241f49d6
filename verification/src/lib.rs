//! The rules of a multiplayer token-removal game and the bookkeeping of who
//! may take part in a game, with contracts that Verus proves.
//!
//! - [`nim`] is the game itself and [`play`] states what holds of whole games.
//! - [`store`] describes users, games and memberships as plain values,
//!   [`db`] keeps them in memory and serves the requests, and [`membership`]
//!   states what holds of the rosters whatever is requested.
//! - [`dto`] and [`types`] are the records, [`password`] checks passwords and
//!   [`server`] holds the configuration and the answers to failed requests.

pub mod db;
pub mod dto;
pub mod membership;
pub mod nim;
pub mod password;
pub mod play;
pub mod server;
pub mod store;
pub mod types;
