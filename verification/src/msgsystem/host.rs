//! Join-context defaults for the Client MessageSystem join wire shapes.
use vstd::prelude::*;
use crate::msgsystem::messages::{DEFAULT_PERSONA_ID, DEFAULT_PLAYER_HANDLE};
use crate::msgsystem::wire::str_to_string;

verus! {

/// Default map when the lobby has not chosen one.
pub const DEFAULT_MAP_PATH: &'static str = "Levels/SP/Alpha_Tutorial/Alpha_Tutorial";

#[derive(Clone, Debug)]
pub struct JoinContext {
    pub map_path: String,
    pub player_handle: u32,
    pub persona: u64,
    pub faction: u32,
    pub team: u32,
}

impl Default for JoinContext {
    fn default() -> (ctx: Self)
        ensures
            ctx.map_path@ == DEFAULT_MAP_PATH@,
            ctx.player_handle == DEFAULT_PLAYER_HANDLE,
            ctx.persona == DEFAULT_PERSONA_ID,
            ctx.faction == 0,
            ctx.team == 0,
    {
        JoinContext {
            map_path: str_to_string(DEFAULT_MAP_PATH),
            player_handle: DEFAULT_PLAYER_HANDLE,
            persona: DEFAULT_PERSONA_ID,
            faction: 0,
            team: 0,
        }
    }
}

} // verus!
