//! Switching the background soundtrack of a game world: the asset table that
//! names each soundtrack, the decision that one switch request makes, a model
//! of the marked soundtrack entities that those decisions are applied to, a
//! queue of requests, and the laws that the switch obeys.

pub mod commands;
pub mod handles;
pub mod laws;
pub mod playback;
pub mod soundtrack;
