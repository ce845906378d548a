//! Lobby form requests (`/cnc/player-attrs`): the query string and the JSON
//! body turned into the attribute writes of one player, and what they leave.
use vstd::prelude::*;
use crate::cnc::game_state::{attr_entries, attr_insert, attr_inserted, attr_value, GameRegistry, RegistryView};
use crate::cnc::game_state::lobby_attrs::{
    attr_new, attr_pairs, fallback_general, host_reset_gid_spec, map_path_spec, pairs_get, pairs_view,
    pending_attrs_set,
};
use crate::cnc::game_state::probe::{probe_spec, PlayerProbe};
use crate::cnc::routes::{form_decode, form_decoded, pieces_view, split_char, split_char_exec};
use crate::text::{eq_lit, find_char, first_index_of, parse_i64, parse_int_in, slice_range, str_chars};
use crate::json::{
    as_i64, as_i64_wrapping, doc_i64, doc_i64_wrapping, doc_has, json_doc_of, json_get, json_get_exec, member_texts,
    member_texts_exec, parse_json_body, texts_exec, texts_of, JsonDoc, JsonValueView,
};
use indexmap::IndexMap;

verus! {

broadcast use vstd::string::group_string_axioms;

/// The JSON body of a player-attributes request, as plain values.
#[derive(Debug, Clone)]
pub struct PlayerAttrsBody {
    /// `gid`, when it is an integer.
    pub gid: Option<i64>,
    /// `pid` (else `persona`), when it is an integer.
    pub pid: Option<i64>,
    /// The top-level members whose value is a string or an integer, as text.
    pub scalars: Vec<(String, String)>,
    /// The members of the `attrs` object whose value is a string or an integer,
    /// as text, in the order the parser walks them (ascending key order).
    pub attrs: Vec<(String, String)>,
}

pub struct PlayerAttrsBodyView {
    pub gid: Option<i64>,
    pub pid: Option<i64>,
    pub scalars: Seq<(Seq<char>, Seq<char>)>,
    pub attrs: Seq<(Seq<char>, Seq<char>)>,
}

impl View for PlayerAttrsBody {
    type V = PlayerAttrsBodyView;

    open spec fn view(&self) -> PlayerAttrsBodyView {
        PlayerAttrsBodyView {
            gid: self.gid,
            pid: self.pid,
            scalars: pairs_view(self.scalars@),
            attrs: pairs_view(self.attrs@),
        }
    }
}

/// Attribute pairs, in write order.
pub type Pairs = Seq<(Seq<char>, Seq<char>)>;

/// The lobby attribute a form key writes: `faction`, `team`, `startpoint`
/// (or `start`), `general`, `isai`, `difficulty`, with or without the leading
/// underscore. Other keys write nothing.
pub open spec fn canonical_attr_key(k: Seq<char>) -> Option<Seq<char>> {
    if k == "faction"@ || k == "_faction"@ {
        Some("_faction"@)
    } else if k == "team"@ || k == "_team"@ {
        Some("_team"@)
    } else if k == "startpoint"@ || k == "start"@ || k == "_startpoint"@ {
        Some("_startpoint"@)
    } else if k == "general"@ || k == "_general"@ {
        Some("_general"@)
    } else if k == "isai"@ || k == "_isai"@ {
        Some("_isai"@)
    } else if k == "difficulty"@ || k == "_difficulty"@ {
        Some("_difficulty"@)
    } else {
        None
    }
}

pub open spec fn with_attr(a: Pairs, k: Seq<char>, v: Seq<char>) -> Pairs {
    match canonical_attr_key(k) {
        Some(c) => attr_inserted(a, c, v),
        None => a,
    }
}

/// `str::parse::<i64>()`, else `d`.
pub open spec fn parse_i64_or(v: Seq<char>, d: i64) -> i64 {
    match parse_int_in(v, true, i64::MIN as int, i64::MAX as int) {
        Some(n) => n as i64,
        None => d,
    }
}

/// One `key=value` piece of the query: `gid`, `pid` (`persona`, `player`), or an attribute.
pub open spec fn query_step(st: (i64, i64, Pairs), piece: Seq<char>) -> (i64, i64, Pairs) {
    let i = first_index_of(piece, '=');
    if i < 0 {
        st
    } else {
        let k = piece.subrange(0, i);
        let d = form_decoded(piece.subrange(i + 1, piece.len() as int));
        if k == "gid"@ {
            (parse_i64_or(d, 1), st.1, st.2)
        } else if k == "pid"@ || k == "persona"@ || k == "player"@ {
            (st.0, parse_i64_or(d, 0), st.2)
        } else {
            (st.0, st.1, with_attr(st.2, k, d))
        }
    }
}

pub open spec fn query_fold(st: (i64, i64, Pairs), pieces: Seq<Seq<char>>) -> (i64, i64, Pairs)
    decreases pieces.len(),
{
    if pieces.len() == 0 {
        st
    } else {
        query_step(query_fold(st, pieces.drop_last()), pieces.last())
    }
}

pub open spec fn field_applied(a: Pairs, scalars: Pairs, key: Seq<char>) -> Pairs {
    match attr_value(scalars, key) {
        Some(v) => with_attr(a, key, v),
        None => a,
    }
}

/// The top-level attribute members of the body, in this fixed order.
pub open spec fn fields_applied(a: Pairs, sc: Pairs) -> Pairs {
    let a = field_applied(a, sc, "_faction"@);
    let a = field_applied(a, sc, "faction"@);
    let a = field_applied(a, sc, "_team"@);
    let a = field_applied(a, sc, "team"@);
    let a = field_applied(a, sc, "_startpoint"@);
    let a = field_applied(a, sc, "startpoint"@);
    let a = field_applied(a, sc, "_general"@);
    let a = field_applied(a, sc, "general"@);
    let a = field_applied(a, sc, "_isai"@);
    let a = field_applied(a, sc, "isai"@);
    let a = field_applied(a, sc, "_difficulty"@);
    field_applied(a, sc, "difficulty"@)
}

pub open spec fn pairs_applied(a: Pairs, ps: Pairs) -> Pairs
    decreases ps.len(),
{
    if ps.len() == 0 {
        a
    } else {
        with_attr(pairs_applied(a, ps.drop_last()), ps.last().0, ps.last().1)
    }
}

pub open spec fn body_applied(st: (i64, i64, Pairs), b: PlayerAttrsBodyView) -> (i64, i64, Pairs) {
    (
        match b.gid {
            Some(g) => g,
            None => st.0,
        },
        match b.pid {
            Some(p) => p,
            None => st.1,
        },
        pairs_applied(fields_applied(st.2, b.scalars), b.attrs),
    )
}

/// `(gid, persona, attributes)` of a request: gid 1 and persona 0 (the host)
/// unless given; the query first, then the body.
pub open spec fn player_attrs_form(query: Option<Seq<char>>, body: Option<PlayerAttrsBodyView>) -> (
    i64,
    i64,
    Pairs,
) {
    let st0 = (1i64, 0i64, Seq::<(Seq<char>, Seq<char>)>::empty());
    let st1 = match query {
        Some(q) => query_fold(st0, split_char(q, '&')),
        None => st0,
    };
    match body {
        Some(b) => body_applied(st1, b),
        None => st1,
    }
}

pub open spec fn opt_view(q: Option<&str>) -> Option<Seq<char>> {
    match q {
        Some(s) => Some(s@),
        None => None,
    }
}

pub open spec fn opt_body(b: Option<&PlayerAttrsBody>) -> Option<PlayerAttrsBodyView> {
    match b {
        Some(x) => Some(x@),
        None => None,
    }
}

// ---------------------------------------------------------------------------
// Parsing
// ---------------------------------------------------------------------------
fn canonical_attr_key_exec(k: &Vec<char>) -> (r: Option<&'static str>)
    ensures
        match r {
            Some(c) => canonical_attr_key(k@) == Some(c@),
            None => canonical_attr_key(k@) is None,
        },
{
    if eq_lit(k, "faction") || eq_lit(k, "_faction") {
        Some("_faction")
    } else if eq_lit(k, "team") || eq_lit(k, "_team") {
        Some("_team")
    } else if eq_lit(k, "startpoint") || eq_lit(k, "start") || eq_lit(k, "_startpoint") {
        Some("_startpoint")
    } else if eq_lit(k, "general") || eq_lit(k, "_general") {
        Some("_general")
    } else if eq_lit(k, "isai") || eq_lit(k, "_isai") {
        Some("_isai")
    } else if eq_lit(k, "difficulty") || eq_lit(k, "_difficulty") {
        Some("_difficulty")
    } else {
        None
    }
}

fn push_attr(m: &mut IndexMap<String, String>, k: &Vec<char>, v: String)
    ensures
        attr_entries(*final(m)) == with_attr(attr_entries(*old(m)), k@, v@),
{
    match canonical_attr_key_exec(k) {
        Some(c) => attr_insert(m, crate::msgsystem::wire::str_to_string(c), v),
        None => {},
    }
}

fn parse_i64_or_exec(v: &String, d: i64) -> (n: i64)
    ensures
        n == parse_i64_or(v@, d),
{
    match parse_i64(&str_chars(v.as_str())) {
        Some(n) => n,
        None => d,
    }
}

fn apply_field(m: &mut IndexMap<String, String>, scalars: &Vec<(String, String)>, key: &str)
    ensures
        attr_entries(*final(m)) == field_applied(attr_entries(*old(m)), pairs_view(scalars@), key@),
{
    match pairs_get(scalars, key) {
        Some(v) => push_attr(m, &str_chars(key), v),
        None => {},
    }
}

/// The gid, persona and attribute writes of a player-attributes request
/// (see `player_attrs_form`).
pub fn parse_player_attrs_form(query: Option<&str>, body: Option<&PlayerAttrsBody>) -> (r: (
    i64,
    i64,
    IndexMap<String, String>,
))
    ensures
        (r.0, r.1, attr_entries(r.2)) == player_attrs_form(opt_view(query), opt_body(body)),
{
    let mut gid: i64 = 1;
    let mut pid: i64 = 0;
    let mut m = attr_new();
    let ghost st0 = (1i64, 0i64, Seq::<(Seq<char>, Seq<char>)>::empty());
    match query {
        Some(q) => {
            let pieces = split_char_exec(&str_chars(q), '&');
            let ghost ps = pieces_view(pieces@);
            let mut i: usize = 0;
            while i < pieces.len()
                invariant
                    i <= pieces@.len(),
                    ps == pieces_view(pieces@),
                    (gid, pid, attr_entries(m)) == query_fold(st0, ps.subrange(0, i as int)),
                decreases pieces@.len() - i,
            {
                let piece = &pieces[i];
                let ghost t = ps.subrange(0, i + 1);
                assert(t.drop_last() =~= ps.subrange(0, i as int));
                assert(t.last() == piece@);
                match find_char(piece, '=') {
                    Some(j) => {
                        let n = piece.len();
                        let k = slice_range(piece, 0, j);
                        let v = slice_range(piece, j + 1, n);
                        let d = form_decode(&v);
                        if eq_lit(&k, "gid") {
                            gid = parse_i64_or_exec(&d, 1);
                        } else if eq_lit(&k, "pid") || eq_lit(&k, "persona") || eq_lit(&k, "player") {
                            pid = parse_i64_or_exec(&d, 0);
                        } else {
                            push_attr(&mut m, &k, d);
                        }
                    },
                    None => {},
                }
                i = i + 1;
            }
            assert(ps.subrange(0, i as int) =~= ps);
        },
        None => {
            assert(attr_entries(m) =~= Seq::<(Seq<char>, Seq<char>)>::empty());
        },
    }
    let ghost st1 = (gid, pid, attr_entries(m));
    match body {
        Some(b) => {
            match b.gid {
                Some(g) => gid = g,
                None => {},
            }
            match b.pid {
                Some(p) => pid = p,
                None => {},
            }
            let sc = &b.scalars;
            apply_field(&mut m, sc, "_faction");
            apply_field(&mut m, sc, "faction");
            apply_field(&mut m, sc, "_team");
            apply_field(&mut m, sc, "team");
            apply_field(&mut m, sc, "_startpoint");
            apply_field(&mut m, sc, "startpoint");
            apply_field(&mut m, sc, "_general");
            apply_field(&mut m, sc, "general");
            apply_field(&mut m, sc, "_isai");
            apply_field(&mut m, sc, "isai");
            apply_field(&mut m, sc, "_difficulty");
            apply_field(&mut m, sc, "difficulty");
            let ghost a1 = attr_entries(m);
            assert(a1 == fields_applied(st1.2, pairs_view(b.scalars@)));
            let ghost ps = pairs_view(b.attrs@);
            let mut i: usize = 0;
            while i < b.attrs.len()
                invariant
                    i <= b.attrs@.len(),
                    ps == pairs_view(b.attrs@),
                    attr_entries(m) == pairs_applied(a1, ps.subrange(0, i as int)),
                decreases b.attrs@.len() - i,
            {
                let ghost t = ps.subrange(0, i + 1);
                assert(t.drop_last() =~= ps.subrange(0, i as int));
                assert(t.last() == (b.attrs@[i as int].0@, b.attrs@[i as int].1@));
                push_attr(&mut m, &str_chars(b.attrs[i].0.as_str()), b.attrs[i].1.clone());
                i = i + 1;
            }
            assert(ps.subrange(0, i as int) =~= ps);
        },
        None => {},
    }
    (gid, pid, m)
}

// ---------------------------------------------------------------------------
// Applying a request
// ---------------------------------------------------------------------------
/// Why a player-attributes request was refused.
#[derive(Debug, Clone, Copy, PartialEq, Eq, Structural)]
pub enum PlayerAttrsError {
    /// No attribute that the lobby knows was given.
    MissingAttrs,
}

/// What an accepted player-attributes request wrote.
#[derive(Debug)]
pub struct PlayerAttrsReply {
    pub gid: i64,
    pub pid: i64,
    /// The attribute writes, in write order.
    pub attrs: Vec<(String, String)>,
    /// The probe of the gid once the writes are in.
    pub probe: PlayerProbe,
}

/// What a player-attributes request answers and leaves (`before` to `after`).
pub open spec fn attrs_requested(
    before: RegistryView,
    after: RegistryView,
    query: Option<Seq<char>>,
    body: Option<PlayerAttrsBodyView>,
    host: i64,
    registered_pool_gid: Option<i64>,
    r: Result<PlayerAttrsReply, PlayerAttrsError>,
) -> bool {
    let f = player_attrs_form(query, body);
    &&& f.2.len() == 0 ==> r == Err::<PlayerAttrsReply, PlayerAttrsError>(
        PlayerAttrsError::MissingAttrs,
    ) && after == before
    &&& f.2.len() > 0 ==> (r matches Ok(x) && x.gid == f.0 && x.pid == f.1 && pairs_view(x.attrs@)
        == f.2 && after == pending_attrs_set(
        before,
        f.0,
        f.1,
        f.2,
        fallback_general(map_path_spec(before, host_reset_gid_spec(before, host, registered_pool_gid))),
    ) && x.probe@ == probe_spec(after, f.0))
}

/// A `/cnc/player-attrs` request: its writes go to (gid, persona) through
/// `set_pending_player_attrs` (`host` is this side's persona, for a persona of
/// 0); refused, changing nothing, when it names no attribute.
pub fn player_attrs_request(
    reg: &mut GameRegistry,
    query: Option<&str>,
    body: Option<&PlayerAttrsBody>,
    host: i64,
    registered_pool_gid: Option<i64>,
) -> (r: Result<PlayerAttrsReply, PlayerAttrsError>)
    ensures
        attrs_requested(old(reg)@, final(reg)@, opt_view(query), opt_body(body), host, registered_pool_gid, r),
{
    let (gid, pid, attrs) = parse_player_attrs_form(query, body);
    let pairs = attr_pairs(&attrs);
    if pairs.len() == 0 {
        return Err(PlayerAttrsError::MissingAttrs);
    }
    reg.set_pending_player_attrs(gid, pid, attrs, host, registered_pool_gid);
    let probe = reg.player_data_probe(gid);
    Ok(PlayerAttrsReply { gid, pid, attrs: pairs, probe })
}

// ---------------------------------------------------------------------------
// The JSON body
// ---------------------------------------------------------------------------
/// What a parsed JSON body gives a player-attributes request: `gid` when an
/// `i64`; `pid` (only when absent, `persona`) as an `i64` or a `u64` taken as
/// one; the top-level members and the `attrs` members with a string or integer
/// value, integers as their decimal text.
pub open spec fn player_attrs_body_spec(d: Seq<(Seq<char>, JsonValueView)>) -> PlayerAttrsBodyView {
    PlayerAttrsBodyView {
        gid: as_i64(json_get(d, "gid"@)),
        pid: match json_get(d, "pid"@) {
            Some(v) => as_i64_wrapping(Some(v)),
            None => as_i64_wrapping(json_get(d, "persona"@)),
        },
        scalars: member_texts(d),
        attrs: match json_get(d, "attrs"@) {
            Some(v) => match v.as_object {
                Some(f) => texts_of(f),
                None => Seq::empty(),
            },
            None => Seq::empty(),
        },
    }
}

/// The body a request's bytes give: none when they are not JSON.
pub open spec fn attrs_body_of_bytes(b: Seq<u8>) -> Option<PlayerAttrsBodyView> {
    match json_doc_of(b) {
        Some(d) => Some(player_attrs_body_spec(d)),
        None => None,
    }
}

/// The player-attributes body of a parsed JSON body (see `player_attrs_body_spec`).
pub fn player_attrs_body_of(d: &JsonDoc) -> (r: PlayerAttrsBody)
    ensures
        r@ == player_attrs_body_spec(d@),
{
    let gid = doc_i64(d, "gid");
    let pid = if doc_has(d, "pid") {
        doc_i64_wrapping(d, "pid")
    } else {
        doc_i64_wrapping(d, "persona")
    };
    let scalars = member_texts_exec(d);
    let attrs = match json_get_exec(d, "attrs") {
        Some(v) => match &v.as_object {
            Some(f) => texts_exec(f),
            None => Vec::new(),
        },
        None => Vec::new(),
    };
    let r = PlayerAttrsBody { gid, pid, scalars, attrs };
    assert(pairs_view(r.attrs@) =~= player_attrs_body_spec(d@).attrs);
    r
}

/// A `/cnc/player-attrs` request with its raw body (see `player_attrs_request`):
/// the body counts only when it parses as JSON.
pub fn player_attrs_request_bytes(
    reg: &mut GameRegistry,
    query: Option<&str>,
    body: &[u8],
    host: i64,
    registered_pool_gid: Option<i64>,
) -> (r: Result<PlayerAttrsReply, PlayerAttrsError>)
    ensures
        attrs_requested(old(reg)@, final(reg)@, opt_view(query), attrs_body_of_bytes(body@), host, registered_pool_gid, r),
{
    let b = match parse_json_body(body) {
        Some(d) => Some(player_attrs_body_of(&d)),
        None => None,
    };
    player_attrs_request(reg, query, b.as_ref(), host, registered_pool_gid)
}

} // verus!
