//! A covenant engine: a two-party liquidity holder, a liquid pooler, a tick
//! scheduler and the split rules that route funds between them, with the
//! arithmetic they share.
pub mod bank;
pub mod clock;
pub mod decimal;
pub mod expiry;
pub mod holder;
pub mod keyed;
pub mod lper;
pub mod outpost;
pub mod parties;
pub mod pooler;
pub mod remote;
pub mod router;
pub mod split;
pub mod withdrawer;
