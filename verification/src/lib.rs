//! Ferry schedule lookups behind a local cache.

pub mod cache;
pub mod clock;
pub mod error;
pub mod model;
pub mod request;
pub mod session;
pub mod text;
pub mod timestamp;

pub use crate::cache::Cache;
pub use crate::error::WsfError;
pub use crate::model::{SailingTime, Schedule, Terminal, TerminalCombo};
pub use crate::session::{Lookup, Session};
pub use crate::timestamp::Timestamp;
