//! The parameters of the lobby's small HTTP requests (`gid`, `pid`, `ready`,
//! `force`, a password, a map path, a ping target), read from the query
//! string and, where the request has one, its JSON body.
use vstd::prelude::*;
use crate::cnc::dedicated_pool::DEDICATED_PING_TCP_PORT;
use crate::cnc::forms::{opt_view, parse_i64_or};
use crate::cnc::game_state::lobby_attrs::{truthy, truthy_exec};
use crate::cnc::game_state::{game_of, GamePhase, GameRegistry, RegistryView};
use crate::cnc::routes::{form_decode, form_decoded, pieces_view, split_char, split_char_exec};
use crate::json::{as_i64, as_str, doc_has, doc_i64, doc_i64_wrapping, doc_str, json_doc_of, json_get, parse_json_body, JsonDoc, JsonValueView};
use crate::text::{chars_eq, find_char, first_index_of, parse_i64, parse_int_in, parse_u16, slice_range, str_chars};

verus! {

broadcast use vstd::string::group_string_axioms;

// ---------------------------------------------------------------------------
// Query pairs
// ---------------------------------------------------------------------------
/// The `key=value` pieces (split at the first `=`) with form-decoded values;
/// pieces without `=` are skipped.
pub open spec fn query_pairs(pieces: Seq<Seq<char>>) -> Seq<(Seq<char>, Seq<char>)>
    decreases pieces.len(),
{
    if pieces.len() == 0 {
        Seq::empty()
    } else {
        let r = query_pairs(pieces.drop_last());
        let p = pieces.last();
        let i = first_index_of(p, '=');
        if i >= 0 {
            r.push((p.subrange(0, i), form_decoded(p.subrange(i + 1, p.len() as int))))
        } else {
            r
        }
    }
}

pub open spec fn query_of(q: Option<Seq<char>>) -> Seq<(Seq<char>, Seq<char>)> {
    match q {
        Some(s) => query_pairs(split_char(s, '&')),
        None => Seq::empty(),
    }
}

/// The value of the last pair whose key is one of `keys`.
pub open spec fn last_value(pairs: Seq<(Seq<char>, Seq<char>)>, keys: Seq<Seq<char>>) -> Option<Seq<char>>
    decreases pairs.len(),
{
    if pairs.len() == 0 {
        None
    } else if keys.contains(pairs.last().0) {
        Some(pairs.last().1)
    } else {
        last_value(pairs.drop_last(), keys)
    }
}

/// An integer parameter: the last of `keys` read as an `i64`, else `d`
/// (also when that last value does not read as one).
pub open spec fn int_param(pairs: Seq<(Seq<char>, Seq<char>)>, keys: Seq<Seq<char>>, d: i64) -> i64 {
    match last_value(pairs, keys) {
        Some(v) => parse_i64_or(v, d),
        None => d,
    }
}

/// A yes/no parameter: the last of `keys` is `1` or `true` (any case); `d` without one.
pub open spec fn flag_param(pairs: Seq<(Seq<char>, Seq<char>)>, keys: Seq<Seq<char>>, d: bool) -> bool {
    match last_value(pairs, keys) {
        Some(v) => truthy(v),
        None => d,
    }
}

pub open spec fn keys_view(v: Seq<Vec<char>>) -> Seq<Seq<char>> {
    v.map_values(|k: Vec<char>| k@)
}

pub open spec fn pairs_of(v: Seq<(Vec<char>, String)>) -> Seq<(Seq<char>, Seq<char>)> {
    v.map_values(|x: (Vec<char>, String)| (x.0@, x.1@))
}

/// The decoded pairs of a query string.
pub fn query_pairs_exec(query: Option<&str>) -> (v: Vec<(Vec<char>, String)>)
    ensures
        pairs_of(v@) == query_of(opt_view(query)),
{
    let mut v: Vec<(Vec<char>, String)> = Vec::new();
    let q = match query {
        Some(q) => q,
        None => {
            assert(pairs_of(v@) =~= Seq::<(Seq<char>, Seq<char>)>::empty());
            return v;
        },
    };
    let pieces = split_char_exec(&str_chars(q), '&');
    let ghost ps = pieces_view(pieces@);
    let mut i: usize = 0;
    while i < pieces.len()
        invariant
            i <= pieces@.len(),
            ps == pieces_view(pieces@),
            pairs_of(v@) == query_pairs(ps.subrange(0, i as int)),
        decreases pieces@.len() - i,
    {
        let piece = &pieces[i];
        let ghost t = ps.subrange(0, i + 1);
        assert(t.drop_last() =~= ps.subrange(0, i as int));
        assert(t.last() == piece@);
        match find_char(piece, '=') {
            Some(j) => {
                let n = piece.len();
                let k = slice_range(piece, 0, j);
                let d = form_decode(&slice_range(piece, j + 1, n));
                let ghost before = pairs_of(v@);
                let ghost e = (k@, d@);
                v.push((k, d));
                assert(pairs_of(v@) =~= before.push(e));
            },
            None => {},
        }
        i = i + 1;
    }
    assert(ps.subrange(0, i as int) =~= ps);
    v
}

fn key_in(keys: &Vec<Vec<char>>, k: &Vec<char>) -> (b: bool)
    ensures
        b == keys_view(keys@).contains(k@),
{
    let ghost ks = keys_view(keys@);
    let mut i: usize = 0;
    while i < keys.len()
        invariant
            i <= keys@.len(),
            ks == keys_view(keys@),
            forall|j: int| 0 <= j < i ==> ks[j] != k@,
        decreases keys@.len() - i,
    {
        if chars_eq(&keys[i], k) {
            assert(ks[i as int] == k@);
            return true;
        }
        i = i + 1;
    }
    false
}

/// The value of the last pair whose key is one of `keys`.
pub fn last_value_exec(pairs: &Vec<(Vec<char>, String)>, keys: &Vec<Vec<char>>) -> (r: Option<String>)
    ensures
        match r {
            Some(v) => last_value(pairs_of(pairs@), keys_view(keys@)) == Some(v@),
            None => last_value(pairs_of(pairs@), keys_view(keys@)) is None,
        },
{
    let ghost ps = pairs_of(pairs@);
    let mut i: usize = pairs.len();
    assert(ps.subrange(0, i as int) =~= ps);
    while i > 0
        invariant
            i <= ps.len(),
            ps == pairs_of(pairs@),
            last_value(ps, keys_view(keys@)) == last_value(ps.subrange(0, i as int), keys_view(keys@)),
        decreases i,
    {
        let ghost t = ps.subrange(0, i as int);
        assert(t.drop_last() =~= ps.subrange(0, i - 1));
        assert(t.last() == (pairs@[i - 1].0@, pairs@[i - 1].1@));
        if key_in(keys, &pairs[i - 1].0) {
            return Some(pairs[i - 1].1.clone());
        }
        i = i - 1;
    }
    None
}

fn int_param_exec(pairs: &Vec<(Vec<char>, String)>, keys: &Vec<Vec<char>>, d: i64) -> (n: i64)
    ensures
        n == int_param(pairs_of(pairs@), keys_view(keys@), d),
{
    match last_value_exec(pairs, keys) {
        Some(v) => match parse_i64(&str_chars(v.as_str())) {
            Some(n) => n,
            None => d,
        },
        None => d,
    }
}

fn flag_param_exec(pairs: &Vec<(Vec<char>, String)>, keys: &Vec<Vec<char>>, d: bool) -> (b: bool)
    ensures
        b == flag_param(pairs_of(pairs@), keys_view(keys@), d),
{
    match last_value_exec(pairs, keys) {
        Some(v) => truthy_exec(v.as_str()),
        None => d,
    }
}

fn keys1(a: &str) -> (v: Vec<Vec<char>>)
    ensures
        keys_view(v@) == seq![a@],
{
    let v = vec![str_chars(a)];
    assert(keys_view(v@) =~= seq![a@]);
    v
}

fn keys2(a: &str, b: &str) -> (v: Vec<Vec<char>>)
    ensures
        keys_view(v@) == seq![a@, b@],
{
    let v = vec![str_chars(a), str_chars(b)];
    assert(keys_view(v@) =~= seq![a@, b@]);
    v
}

fn keys3(a: &str, b: &str, c: &str) -> (v: Vec<Vec<char>>)
    ensures
        keys_view(v@) == seq![a@, b@, c@],
{
    let v = vec![str_chars(a), str_chars(b), str_chars(c)];
    assert(keys_view(v@) =~= seq![a@, b@, c@]);
    v
}

// ---------------------------------------------------------------------------
// The requests
// ---------------------------------------------------------------------------
/// Why a request was refused.
#[derive(Debug, Clone, Copy, PartialEq, Eq, Structural)]
pub enum QueryError {
    /// `gid` missing or not positive.
    GidRequired,
    /// `path` missing or empty.
    MissingPath,
}

/// The `gid` of a probe or roster request (1 without one).
pub fn gid_query_param(query: Option<&str>) -> (gid: i64)
    ensures
        gid == int_param(query_of(opt_view(query)), seq!["gid"@], 1),
{
    let pairs = query_pairs_exec(query);
    int_param_exec(&pairs, &keys1("gid"), 1)
}

/// The JSON body of a map selection, as plain values.
#[derive(Debug, Clone)]
pub struct SelectMapBody {
    /// `gid`, when it is an integer.
    pub gid: Option<i64>,
    /// `path` (else `level`), when it is a string.
    pub path: Option<String>,
}

pub open spec fn select_map_spec(q: Option<Seq<char>>, body: Option<(Option<i64>, Option<Seq<char>>)>) -> Result<
    (i64, Seq<char>),
    QueryError,
> {
    let pairs = query_of(q);
    let gid0 = int_param(pairs, seq!["gid"@], 1);
    let path0 = match last_value(pairs, seq!["path"@, "level"@]) {
        Some(p) => p,
        None => Seq::empty(),
    };
    let (gid, path) = if path0.len() == 0 {
        match body {
            Some((bg, bp)) => (
                match bg {
                    Some(g) => g,
                    None => gid0,
                },
                match bp {
                    Some(p) => p,
                    None => path0,
                },
            ),
            None => (gid0, path0),
        }
    } else {
        (gid0, path0)
    };
    if path.len() == 0 {
        Err(QueryError::MissingPath)
    } else {
        Ok((gid, path))
    }
}

pub open spec fn select_body_view(b: Option<&SelectMapBody>) -> Option<(Option<i64>, Option<Seq<char>>)> {
    match b {
        Some(x) => Some(
            (
                x.gid,
                match x.path {
                    Some(p) => Some(p@),
                    None => None,
                },
            ),
        ),
        None => None,
    }
}

/// A map selection (`/cnc/select-map`): the query's `gid` and `path` (or
/// `level`), the body's when the query names no path; the choice is recorded
/// with `set_map_path`. Refused without a path.
pub fn select_map_request(reg: &mut GameRegistry, query: Option<&str>, body: Option<&SelectMapBody>) -> (r: Result<
    (i64, String),
    QueryError,
>)
    ensures
        match select_map_spec(opt_view(query), select_body_view(body)) {
            Err(e) => r == Err::<(i64, String), QueryError>(e) && final(reg)@ == old(reg)@,
            Ok((gid, path)) => r matches Ok(x) && x.0 == gid && x.1@ == path && final(reg)@
                == crate::cnc::game_state::map_path_set(old(reg)@, gid, path),
        },
{
    let pairs = query_pairs_exec(query);
    let mut gid = int_param_exec(&pairs, &keys1("gid"), 1);
    let mut path = match last_value_exec(&pairs, &keys2("path", "level")) {
        Some(p) => p,
        None => String::new(),
    };
    if str_chars(path.as_str()).len() == 0 {
        match body {
            Some(b) => {
                match b.gid {
                    Some(g) => gid = g,
                    None => {},
                }
                match &b.path {
                    Some(p) => path = p.clone(),
                    None => {},
                }
            },
            None => {},
        }
    }
    if str_chars(path.as_str()).len() == 0 {
        return Err(QueryError::MissingPath);
    }
    reg.set_map_path(gid, path.as_str());
    Ok((gid, path))
}

/// The JSON body of a password request, as plain values.
#[derive(Debug, Clone)]
pub struct PasswordBody {
    /// `gid`, when it is an integer.
    pub gid: Option<i64>,
    /// `pid` (else `persona`), when it is an integer.
    pub pid: Option<i64>,
    /// `password` (else `pass`, else `pwd`), when it is a string.
    pub password: Option<String>,
}

pub open spec fn password_body_view(b: Option<&PasswordBody>) -> Option<(Option<i64>, Option<i64>, Option<Seq<char>>)> {
    match b {
        Some(x) => Some(
            (
                x.gid,
                x.pid,
                match x.password {
                    Some(p) => Some(p@),
                    None => None,
                },
            ),
        ),
        None => None,
    }
}

/// `(gid, pid, password)` of a password request: the query, then the body; a
/// persona that is not positive becomes the signed-in one (`session_persona`)
/// when there is one.
pub open spec fn gid_pid_password_spec(
    q: Option<Seq<char>>,
    body: Option<(Option<i64>, Option<i64>, Option<Seq<char>>)>,
    session_persona: u64,
) -> (i64, i64, Seq<char>) {
    let pairs = query_of(q);
    let g0 = int_param(pairs, seq!["gid"@], 0);
    let p0 = int_param(pairs, seq!["pid"@, "persona"@, "player"@], 0);
    let w0 = match last_value(pairs, seq!["password"@, "pass"@, "pwd"@]) {
        Some(w) => w,
        None => Seq::empty(),
    };
    let (g, p, w) = match body {
        Some((bg, bp, bw)) => (
            match bg {
                Some(x) => x,
                None => g0,
            },
            match bp {
                Some(x) => x,
                None => p0,
            },
            match bw {
                Some(x) => x,
                None => w0,
            },
        ),
        None => (g0, p0, w0),
    };
    let p1 = if p <= 0 && session_persona != 0 {
        session_persona as i64
    } else {
        p
    };
    (g, p1, w)
}

/// The gid, persona and password of a password request (see `gid_pid_password_spec`).
pub fn parse_gid_pid_password(query: Option<&str>, body: Option<&PasswordBody>, session_persona: u64) -> (r: (
    i64,
    i64,
    String,
))
    ensures
        (r.0, r.1, r.2@) == gid_pid_password_spec(opt_view(query), password_body_view(body), session_persona),
{
    let pairs = query_pairs_exec(query);
    let mut gid = int_param_exec(&pairs, &keys1("gid"), 0);
    let mut pid = int_param_exec(&pairs, &keys3("pid", "persona", "player"), 0);
    let mut password = match last_value_exec(&pairs, &keys3("password", "pass", "pwd")) {
        Some(w) => w,
        None => String::new(),
    };
    match body {
        Some(b) => {
            match b.gid {
                Some(g) => gid = g,
                None => {},
            }
            match b.pid {
                Some(p) => pid = p,
                None => {},
            }
            match &b.password {
                Some(w) => password = w.clone(),
                None => {},
            }
        },
        None => {},
    }
    if pid <= 0 && session_persona != 0 {
        pid = session_persona as i64;
    }
    (gid, pid, password)
}

/// `(gid, pid, force)` of a leave request: the persona falls back to the
/// signed-in one; `force` also when no persona is known. Refused without a positive gid.
pub open spec fn leave_query_spec(q: Option<Seq<char>>, session_persona: u64) -> Result<(i64, i64, bool), QueryError> {
    let pairs = query_of(q);
    let gid = int_param(pairs, seq!["gid"@], 0);
    let p0 = int_param(pairs, seq!["pid"@], 0);
    let force = flag_param(pairs, seq!["force"@], false);
    let pid = if p0 <= 0 && session_persona != 0 {
        session_persona as i64
    } else {
        p0
    };
    if gid <= 0 {
        Err(QueryError::GidRequired)
    } else {
        Ok((gid, pid, force || pid <= 0))
    }
}

/// The parameters of a leave request (see `leave_query_spec`).
pub fn parse_leave_game_query(query: Option<&str>, session_persona: u64) -> (r: Result<(i64, i64, bool), QueryError>)
    ensures
        r == leave_query_spec(opt_view(query), session_persona),
{
    let pairs = query_pairs_exec(query);
    let gid = int_param_exec(&pairs, &keys1("gid"), 0);
    let mut pid = int_param_exec(&pairs, &keys1("pid"), 0);
    let force = flag_param_exec(&pairs, &keys1("force"), false);
    if pid <= 0 && session_persona != 0 {
        pid = session_persona as i64;
    }
    if gid <= 0 {
        return Err(QueryError::GidRequired);
    }
    Ok((gid, pid, force || pid <= 0))
}

/// `(gid, pid, ready)` of a ready toggle: gid 1 and ready unless given; a
/// persona that is not positive becomes the signed-in one, else 1000.
pub open spec fn ready_query_spec(q: Option<Seq<char>>, session_persona: u64) -> (i64, i64, bool) {
    let pairs = query_of(q);
    let p0 = int_param(pairs, seq!["pid"@], 0);
    (
        int_param(pairs, seq!["gid"@], 1),
        if p0 <= 0 {
            if session_persona == 0 {
                1000
            } else {
                session_persona as i64
            }
        } else {
            p0
        },
        flag_param(pairs, seq!["ready"@], true),
    )
}

/// What a ready toggle did.
#[derive(Debug, Clone, Copy, PartialEq, Eq, Structural)]
pub struct ReadyReply {
    /// The persona's row was found (and is not an AI row).
    pub ok: bool,
    pub gid: i64,
    pub pid: i64,
    pub ready: bool,
    pub all_ready: bool,
    pub admin: i64,
}

/// A ready toggle (`/cnc/player-ready`, see `ready_query_spec`), applied with
/// `set_player_ready`; `host` is this side's persona, the admin of a room that
/// does not exist.
pub fn player_ready_request(reg: &mut GameRegistry, query: Option<&str>, session_persona: u64, host: i64) -> (r:
    ReadyReply)
    ensures
        ({
            let (gid, pid, ready) = ready_query_spec(opt_view(query), session_persona);
            &&& r.gid == gid && r.pid == pid && r.ready == ready
            &&& r.all_ready == match game_of(final(reg)@.games, gid) {
                Some(g) => crate::cnc::game_state::humans_ready(g.players, g.host_persona),
                None => false,
            }
            &&& r.admin == match game_of(final(reg)@.games, gid) {
                Some(g) => g.host_persona,
                None => host,
            }
            &&& crate::cnc::game_state::ready_set(old(reg)@, final(reg)@, gid, pid, ready, r.ok)
        }),
{
    let pairs = query_pairs_exec(query);
    let gid = int_param_exec(&pairs, &keys1("gid"), 1);
    let mut pid = int_param_exec(&pairs, &keys1("pid"), 0);
    let ready = flag_param_exec(&pairs, &keys1("ready"), true);
    if pid <= 0 {
        pid = if session_persona == 0 {
            1000
        } else {
            session_persona as i64
        };
    }
    let ok = reg.set_player_ready(gid, pid, ready);
    let all_ready = reg.all_humans_ready(gid);
    let admin = reg.host_persona_for_gid(gid, host);
    ReadyReply { ok, gid, pid, ready, all_ready, admin }
}

/// The last `port` that reads as a port number, else the dedicated ping port.
pub open spec fn ping_port(pairs: Seq<(Seq<char>, Seq<char>)>) -> u16
    decreases pairs.len(),
{
    if pairs.len() == 0 {
        DEDICATED_PING_TCP_PORT
    } else if pairs.last().0 == "port"@ && parse_int_in(pairs.last().1, false, 0, u16::MAX as int) is Some {
        parse_int_in(pairs.last().1, false, 0, u16::MAX as int)->Some_0 as u16
    } else {
        ping_port(pairs.drop_last())
    }
}

/// `(host, port)` of a ping request: the last `host` (empty without one) and `ping_port`.
pub fn parse_server_ping_query(query: Option<&str>) -> (r: (String, u16))
    ensures
        r.0@ == match last_value(query_of(opt_view(query)), seq!["host"@]) {
            Some(h) => h,
            None => Seq::empty(),
        },
        r.1 == ping_port(query_of(opt_view(query))),
{
    let pairs = query_pairs_exec(query);
    let host = match last_value_exec(&pairs, &keys1("host")) {
        Some(h) => h,
        None => String::new(),
    };
    let ghost ps = pairs_of(pairs@);
    let mut i: usize = pairs.len();
    assert(ps.subrange(0, i as int) =~= ps);
    while i > 0
        invariant
            i <= ps.len(),
            ps == pairs_of(pairs@),
            ps == query_of(opt_view(query)),
            host@ == match last_value(ps, seq!["host"@]) {
                Some(h) => h,
                None => Seq::<char>::empty(),
            },
            ping_port(ps) == ping_port(ps.subrange(0, i as int)),
        decreases i,
    {
        let ghost t = ps.subrange(0, i as int);
        assert(t.drop_last() =~= ps.subrange(0, i - 1));
        assert(t.last() == (pairs@[i - 1].0@, pairs@[i - 1].1@));
        if crate::text::eq_lit(&pairs[i - 1].0, "port") {
            match parse_u16(&str_chars(pairs[i - 1].1.as_str())) {
                Some(p) => {
                    return (host, p);
                },
                None => {},
            }
        }
        i = i - 1;
    }
    (host, DEDICATED_PING_TCP_PORT)
}

/// What a start-battle request decided.
#[derive(Debug, Clone, PartialEq, Eq)]
pub enum StartBattle {
    AlreadyInGame,
    /// Some human is not ready; `admin` is the room's host.
    NotAllReady { admin: i64 },
    /// The room is in game now; `phase` is what it was before, `humans` the
    /// personas to be told.
    Started { phase: GamePhase, player_count: usize, humans: Vec<i64> },
}

/// What starting the battle of room `gid` does (`before` to `after`, result `r`).
pub open spec fn battle_start(before: RegistryView, after: RegistryView, gid: i64, host: i64, r: StartBattle) -> bool {
    let phase = match game_of(before.games, gid) {
        Some(g) => g.phase,
        None => GamePhase::Resetable,
    };
    let ready = match game_of(before.games, gid) {
        Some(g) => crate::cnc::game_state::humans_ready(g.players, g.host_persona),
        None => false,
    };
    if phase == GamePhase::InGame {
        r == StartBattle::AlreadyInGame && after == before
    } else if !ready {
        r == StartBattle::NotAllReady {
            admin: match game_of(before.games, gid) {
                Some(g) => g.host_persona,
                None => host,
            },
        } && after == before
    } else {
        let g = game_of(before.games, gid)->Some_0;
        &&& after == crate::cnc::game_state::update_game(
            before,
            crate::cnc::game_state::game_index(before.games, gid),
            crate::cnc::game_state::GameView { phase: GamePhase::InGame, ..g },
        )
        &&& r matches StartBattle::Started { phase: p, player_count, humans } && p == phase
            && player_count == g.players.len() && humans@ == crate::cnc::game_state::human_personas(g.players)
    }
}

/// Starts the battle of room `gid`: nothing when it is already in game,
/// refused unless every human is ready, else the room goes in game.
pub fn start_battle(reg: &mut GameRegistry, gid: i64, host: i64) -> (r: StartBattle)
    ensures
        battle_start(old(reg)@, final(reg)@, gid, host, r),
{
    let phase = reg.get_phase(gid);
    if phase == GamePhase::InGame {
        return StartBattle::AlreadyInGame;
    }
    if !reg.all_humans_ready(gid) {
        return StartBattle::NotAllReady { admin: reg.host_persona_for_gid(gid, host) };
    }
    let humans = match reg.human_personas_of(gid) {
        Some(v) => v,
        None => Vec::new(),
    };
    let player_count = match reg.get_game(gid) {
        Some(g) => g.players.len(),
        None => 0,
    };
    reg.set_phase(gid, GamePhase::InGame);
    StartBattle::Started { phase, player_count, humans }
}

// ---------------------------------------------------------------------------
// JSON bodies
// ---------------------------------------------------------------------------
/// `get(key)`, else (only when absent) `get(alt)`.
pub open spec fn get_or(d: Seq<(Seq<char>, JsonValueView)>, key: Seq<char>, alt: Seq<char>) -> Option<JsonValueView> {
    match json_get(d, key) {
        Some(v) => Some(v),
        None => json_get(d, alt),
    }
}

/// What a parsed body gives a select-map request: `gid` when an `i64`, `path`
/// (only when absent, `level`) when a string.
pub open spec fn select_body_spec(d: Seq<(Seq<char>, JsonValueView)>) -> (Option<i64>, Option<Seq<char>>) {
    (as_i64(json_get(d, "gid"@)), as_str(get_or(d, "path"@, "level"@)))
}

pub open spec fn select_body_of_bytes(b: Seq<u8>) -> Option<(Option<i64>, Option<Seq<char>>)> {
    match json_doc_of(b) {
        Some(d) => Some(select_body_spec(d)),
        None => None,
    }
}

fn str_get_or(d: &JsonDoc, key: &str, alt: &str) -> (r: Option<String>)
    ensures
        match r {
            Some(s) => as_str(get_or(d@, key@, alt@)) == Some(s@),
            None => as_str(get_or(d@, key@, alt@)) is None,
        },
{
    if doc_has(d, key) {
        doc_str(d, key)
    } else {
        doc_str(d, alt)
    }
}

/// The select-map body of a parsed JSON body (see `select_body_spec`).
pub fn select_map_body_of(d: &JsonDoc) -> (r: SelectMapBody)
    ensures
        select_body_view(Some(&r)) == Some(select_body_spec(d@)),
{
    SelectMapBody { gid: doc_i64(d, "gid"), path: str_get_or(d, "path", "level") }
}

/// A select-map request with its raw body (see `select_map_request`): the body
/// counts only when it parses as JSON.
pub fn select_map_request_bytes(reg: &mut GameRegistry, query: Option<&str>, body: &[u8]) -> (r: Result<
    (i64, String),
    QueryError,
>)
    ensures
        match select_map_spec(opt_view(query), select_body_of_bytes(body@)) {
            Err(e) => r == Err::<(i64, String), QueryError>(e) && final(reg)@ == old(reg)@,
            Ok((gid, path)) => r matches Ok(x) && x.0 == gid && x.1@ == path && final(reg)@
                == crate::cnc::game_state::map_path_set(old(reg)@, gid, path),
        },
{
    let b = match parse_json_body(body) {
        Some(d) => Some(select_map_body_of(&d)),
        None => None,
    };
    select_map_request(reg, query, b.as_ref())
}

/// What a parsed body gives a password request: `gid` when an `i64`; `pid`
/// (only when absent, `persona`) as an `i64` or a `u64` taken as one;
/// `password` (when absent `pass`, then `pwd`) when a string.
pub open spec fn password_body_spec(d: Seq<(Seq<char>, JsonValueView)>) -> (Option<i64>, Option<i64>, Option<Seq<char>>) {
    (
        as_i64(json_get(d, "gid"@)),
        crate::json::as_i64_wrapping(get_or(d, "pid"@, "persona"@)),
        as_str(
            match json_get(d, "password"@) {
                Some(v) => Some(v),
                None => get_or(d, "pass"@, "pwd"@),
            },
        ),
    )
}

pub open spec fn password_body_of_bytes(b: Seq<u8>) -> Option<(Option<i64>, Option<i64>, Option<Seq<char>>)> {
    match json_doc_of(b) {
        Some(d) => Some(password_body_spec(d)),
        None => None,
    }
}

/// The password body of a parsed JSON body (see `password_body_spec`).
pub fn password_body_of(d: &JsonDoc) -> (r: PasswordBody)
    ensures
        password_body_view(Some(&r)) == Some(password_body_spec(d@)),
{
    let pid = if doc_has(d, "pid") {
        doc_i64_wrapping(d, "pid")
    } else {
        doc_i64_wrapping(d, "persona")
    };
    let password = if doc_has(d, "password") {
        doc_str(d, "password")
    } else {
        str_get_or(d, "pass", "pwd")
    };
    PasswordBody { gid: doc_i64(d, "gid"), pid, password }
}

/// The gid, persona and password of a password request with its raw body (see
/// `gid_pid_password_spec`): the body counts only when it parses as JSON.
pub fn parse_gid_pid_password_bytes(query: Option<&str>, body: &[u8], session_persona: u64) -> (r: (
    i64,
    i64,
    String,
))
    ensures
        (r.0, r.1, r.2@) == gid_pid_password_spec(opt_view(query), password_body_of_bytes(body@), session_persona),
{
    let b = match parse_json_body(body) {
        Some(d) => Some(password_body_of(&d)),
        None => None,
    };
    parse_gid_pid_password(query, b.as_ref(), session_persona)
}

/// The room a start-battle body names: its `gid` when JSON with an `i64` there,
/// else 1. (The body is read as UTF-8 text first; JSON that is not UTF-8 is
/// refused by the parser as well.)
pub open spec fn start_gid_of_bytes(b: Seq<u8>) -> i64 {
    match json_doc_of(b) {
        Some(d) => match as_i64(json_get(d, "gid"@)) {
            Some(g) => g,
            None => 1,
        },
        None => 1,
    }
}

/// A start-battle request with its raw body: the room it names (see
/// `start_gid_of_bytes`) and what starting its battle gave.
pub fn start_battle_request(reg: &mut GameRegistry, body: &[u8], host: i64) -> (r: (i64, StartBattle))
    ensures
        r.0 == start_gid_of_bytes(body@),
        battle_start(old(reg)@, final(reg)@, r.0, host, r.1),
{
    let gid = match parse_json_body(body) {
        Some(d) => match doc_i64(&d, "gid") {
            Some(g) => g,
            None => 1,
        },
        None => 1,
    };
    let b = start_battle(reg, gid, host);
    (gid, b)
}

} // verus!
