//! Client MessageSystem: wire codec, join-path messages and SimuCloud orchestration.
use vstd::prelude::*;

pub mod host;
pub mod log;
pub mod messages;
pub mod negotiation;
pub mod relay;
pub mod simucloud;
pub mod wire;

verus! {

/// Log tag of the relay lines.
pub const LOG_TAG: &'static str = "RTS";

/// Shared message hub port.
pub const MESSAGING_TCP_PORT: u16 = 18386;

/// Default dedicated ServerHost port (`-Prism.MsgSysPort`).
pub const DEDICATED_SERVERHOST_PORT: u16 = 18387;

} // verus!
