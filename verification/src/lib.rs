//! Loot tracking for a game's on-screen logs. Recognised text is parsed into
//! loot events; each snapshot of the log is aligned with the one before, so
//! that only new events count; names that the recognition garbled are led
//! back to the names that the ledger knows; and the ledger adds up what was
//! obtained of each item.
//!
//! Results of the recognition come in as they finish, and are put back in
//! the order of their frames before the tracker sees them. The rectangle to
//! capture is found from a first reading of the whole screen.

pub mod diff;
pub mod dispatch;
pub mod error;
pub mod item_fetcher;
pub mod ledger;
pub mod loot;
pub mod ocr;
pub mod parser;
pub mod pipeline;
pub mod region;
pub mod resolver;
pub mod session;
pub mod silver;
pub mod text;
pub mod tracker;
