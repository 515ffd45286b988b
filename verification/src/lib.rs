//! A riichi mahjong hand scorer.
//!
//! Given the concealed tiles of a completed hand, the exposed calls, and the
//! situational context of the win, the library enumerates every structurally
//! valid decomposition of the hand, filters those that actually win on the
//! winning tile, scores each one (fu and han, with tagged reasons), and
//! returns the outcomes in a deterministic order.  Every function is given a
//! contract that pins its result to a specification-level model, so the whole
//! pipeline is proved deterministic.

pub mod calculation;
pub mod division;
pub mod laws;
pub mod fu;
pub mod meld;
pub mod player;
pub mod score;
pub mod tile;
pub mod types;
pub mod utils;
pub mod yaku;
