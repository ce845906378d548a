//! The title HTTP requests that carry a body: a routed request and its raw
//! body turned into the work on the room registry and its answer.
use vstd::prelude::*;
use crate::cnc::forms::{attrs_body_of_bytes, attrs_requested, player_attrs_request_bytes, PlayerAttrsError, PlayerAttrsReply};
use crate::cnc::game_state::room::{
    password_changed, password_checked, PasswordCheck, SettingsChange, JOIN_PASSWORD_AUTH_TTL_SECS,
};
use crate::cnc::game_state::{map_path_set, GameRegistry};
use crate::cnc::queries::{
    battle_start, gid_pid_password_spec, parse_gid_pid_password_bytes, password_body_of_bytes, select_body_of_bytes,
    select_map_request_bytes, select_map_spec, start_battle_request, start_gid_of_bytes, QueryError, StartBattle,
};
use crate::cnc::routes::{CncPostRequest, CncPostRoute};
use crate::cnc::shell::{shell_theme_of_bytes, theme_prefs_of_bytes};

verus! {

/// The answer to a request with a body.
#[derive(Debug)]
pub enum CncBodyReply {
    StartBattle { gid: i64, outcome: StartBattle },
    SelectMap(Result<(i64, String), QueryError>),
    PlayerAttrs(Result<PlayerAttrsReply, PlayerAttrsError>),
    /// The posted theme preference, to be stored.
    ShellTheme { theme: String, default_theme: String },
    /// `(gid, persona, answer)` of a password change.
    GamePassword(Result<(i64, i64, SettingsChange), QueryError>),
    /// `(gid, persona, answer)` of a password check.
    VerifyGamePassword(Result<(i64, i64, PasswordCheck), QueryError>),
    /// A route whose answer does not come from its body.
    Other,
}

pub open spec fn query_view(q: Option<String>) -> Option<Seq<char>> {
    match q {
        Some(s) => Some(s@),
        None => None,
    }
}

/// What request `req` with raw body `body` answers and leaves (`before` to
/// `after`); `host` is this side's persona, `session_persona` the signed-in one.
pub open spec fn body_request_done(
    before: crate::cnc::game_state::RegistryView,
    after: crate::cnc::game_state::RegistryView,
    req: CncPostRequest,
    body: Seq<u8>,
    host: i64,
    registered_pool_gid: Option<i64>,
    session_persona: u64,
    now: u64,
    r: CncBodyReply,
) -> bool {
    let q = query_view(req.query);
    match req.route {
        CncPostRoute::StartBattle => r matches CncBodyReply::StartBattle { gid, outcome } && gid
            == start_gid_of_bytes(body) && battle_start(before, after, gid, host, outcome),
        CncPostRoute::SelectMap => r matches CncBodyReply::SelectMap(x) && match select_map_spec(
            q,
            select_body_of_bytes(body),
        ) {
            Err(e) => x == Err::<(i64, String), QueryError>(e) && after == before,
            Ok((gid, path)) => x matches Ok(y) && y.0 == gid && y.1@ == path && after == map_path_set(
                before,
                gid,
                path,
            ),
        },
        CncPostRoute::PlayerAttrs => r matches CncBodyReply::PlayerAttrs(x) && attrs_requested(
            before,
            after,
            q,
            attrs_body_of_bytes(body),
            host,
            registered_pool_gid,
            x,
        ),
        CncPostRoute::ShellTheme => if req.is_post {
            r matches CncBodyReply::ShellTheme { theme, default_theme } && (theme@, default_theme@)
                == theme_prefs_of_bytes(body) && after == before
        } else {
            r is Other && after == before
        },
        CncPostRoute::GamePassword => {
            let (g, p, w) = gid_pid_password_spec(q, password_body_of_bytes(body), session_persona);
            r matches CncBodyReply::GamePassword(x) && if g <= 0 {
                x == Err::<(i64, i64, SettingsChange), QueryError>(QueryError::GidRequired) && after == before
            } else {
                x matches Ok(y) && y.0 == g && y.1 == p && password_changed(before, after, g, p, w, y.2)
            }
        },
        CncPostRoute::VerifyGamePassword => {
            let (g, p, w) = gid_pid_password_spec(q, password_body_of_bytes(body), session_persona);
            r matches CncBodyReply::VerifyGamePassword(x) && if g <= 0 {
                x == Err::<(i64, i64, PasswordCheck), QueryError>(QueryError::GidRequired) && after == before
            } else {
                x matches Ok(y) && y.0 == g && y.1 == p && password_checked(before, after, g, p, w, now, y.2)
            }
        },
        _ => r is Other && after == before,
    }
}

/// Serves routed request `req` with its raw body (see `body_request_done`).
pub fn cnc_body_request(
    reg: &mut GameRegistry,
    req: &CncPostRequest,
    body: &[u8],
    host: i64,
    registered_pool_gid: Option<i64>,
    session_persona: u64,
    now: u64,
) -> (r: CncBodyReply)
    requires
        now <= u64::MAX - JOIN_PASSWORD_AUTH_TTL_SECS,
    ensures
        body_request_done(old(reg)@, final(reg)@, *req, body@, host, registered_pool_gid, session_persona, now, r),
{
    let q: Option<&str> = match &req.query {
        Some(s) => Some(s.as_str()),
        None => None,
    };
    match req.route {
        CncPostRoute::StartBattle => {
            let (gid, outcome) = start_battle_request(reg, body, host);
            CncBodyReply::StartBattle { gid, outcome }
        },
        CncPostRoute::SelectMap => CncBodyReply::SelectMap(select_map_request_bytes(reg, q, body)),
        CncPostRoute::PlayerAttrs => CncBodyReply::PlayerAttrs(
            player_attrs_request_bytes(reg, q, body, host, registered_pool_gid),
        ),
        CncPostRoute::ShellTheme => if req.is_post {
            let (theme, default_theme) = shell_theme_of_bytes(body);
            CncBodyReply::ShellTheme { theme, default_theme }
        } else {
            CncBodyReply::Other
        },
        CncPostRoute::GamePassword => {
            let (g, p, w) = parse_gid_pid_password_bytes(q, body, session_persona);
            if g <= 0 {
                CncBodyReply::GamePassword(Err(QueryError::GidRequired))
            } else {
                let c = reg.set_game_password(g, p, w.as_str());
                CncBodyReply::GamePassword(Ok((g, p, c)))
            }
        },
        CncPostRoute::VerifyGamePassword => {
            let (g, p, w) = parse_gid_pid_password_bytes(q, body, session_persona);
            if g <= 0 {
                CncBodyReply::VerifyGamePassword(Err(QueryError::GidRequired))
            } else {
                let c = reg.verify_game_password(g, p, w.as_str(), now);
                CncBodyReply::VerifyGamePassword(Ok((g, p, c)))
            }
        },
        _ => CncBodyReply::Other,
    }
}

} // verus!
