//! Refracted library: MessageSystem wire codec, join-message encoders, SimuCloud
//! orchestration helpers, Blaze log coalescing, dedicated pool and lobby bookkeeping.

pub mod msgsystem;
pub mod text;
pub mod json;
pub mod blaze;
pub mod cnc;
pub mod common;
pub mod console;
