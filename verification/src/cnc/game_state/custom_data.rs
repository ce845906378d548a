//! Player attribute and custom-data writes from the Blaze GameManager, and the
//! last of each, kept for the echo notification that answers it.
use vstd::prelude::*;
use crate::cnc::game_state::lobby_attrs::{
    attr_clone, attr_pairs, fallback_general, host_reset_gid_spec, join_seeded, map_path_spec, pairs_view,
    pending_attrs_set,
};
use crate::cnc::game_state::{
    attr_entries, attr_get, attr_value, blob_entries, first_player, first_player_exec, game_index, game_of,
    players_view, update_game, CncPlayer, GameRegistry, GameView, PlayerView, RegistryView,
};
use crate::msgsystem::wire::str_to_string;
use indexmap::IndexMap;

verus! {

broadcast use vstd::string::group_string_axioms;

// ---------------------------------------------------------------------------
// Blob maps
// ---------------------------------------------------------------------------
/// Position of `key` among the pairs, or -1.
pub open spec fn blob_index(s: Seq<(Seq<char>, Seq<u8>)>, key: Seq<char>) -> int
    decreases s.len(),
{
    if s.len() == 0 {
        -1
    } else if s[0].0 == key {
        0
    } else {
        let r = blob_index(s.drop_first(), key);
        if r < 0 {
            -1
        } else {
            r + 1
        }
    }
}

/// The pairs after an insert: an existing key keeps its place and takes the
/// new blob; a new key goes last.
pub open spec fn blob_inserted(s: Seq<(Seq<char>, Seq<u8>)>, key: Seq<char>, value: Seq<u8>) -> Seq<(Seq<char>, Seq<u8>)> {
    if blob_index(s, key) >= 0 {
        s.update(blob_index(s, key), (key, value))
    } else {
        s.push((key, value))
    }
}

/// The pairs after inserting each of `ps` in turn.
pub open spec fn blobs_applied(s: Seq<(Seq<char>, Seq<u8>)>, ps: Seq<(Seq<char>, Seq<u8>)>) -> Seq<(Seq<char>, Seq<u8>)>
    decreases ps.len(),
{
    if ps.len() == 0 {
        s
    } else {
        blob_inserted(blobs_applied(s, ps.drop_last()), ps.last().0, ps.last().1)
    }
}

pub open spec fn blob_pairs_view(v: Seq<(String, Vec<u8>)>) -> Seq<(Seq<char>, Seq<u8>)> {
    v.map_values(|p: (String, Vec<u8>)| (p.0@, p.1@))
}

/// `IndexMap::insert` on a blob map: an existing key keeps its position and
/// gets the new blob, a new key is appended.
#[verifier::external_body]
pub(crate) fn blob_insert(m: &mut IndexMap<String, Vec<u8>>, key: String, value: Vec<u8>)
    ensures
        blob_entries(*final(m)) == blob_inserted(blob_entries(*old(m)), key@, value@),
{
    m.insert(key, value);
}

/// `IndexMap::contains_key` on a blob map.
#[verifier::external_body]
fn blob_contains(m: &IndexMap<String, Vec<u8>>, key: &str) -> (b: bool)
    ensures
        b == (blob_index(blob_entries(*m), key@) >= 0),
{
    m.contains_key(key)
}

/// `IndexMap::iter` on a blob map, cloned: every pair, in insertion order.
#[verifier::external_body]
fn blob_pairs(m: &IndexMap<String, Vec<u8>>) -> (v: Vec<(String, Vec<u8>)>)
    ensures
        blob_pairs_view(v@) == blob_entries(*m),
{
    m.iter().map(|(k, v)| (k.clone(), v.clone())).collect()
}

/// `IndexMap::clone` on a blob map: the same pairs in the same order.
#[verifier::external_body]
fn blob_map_clone(m: &IndexMap<String, Vec<u8>>) -> (c: IndexMap<String, Vec<u8>>)
    ensures
        blob_entries(c) == blob_entries(*m),
{
    m.clone()
}

/// The auth token the title's settings and the dedicated express login carry.
pub const CNC_AUTH_TOKEN: &'static str = "ABC123";

/// The bytes of `CNC_AUTH_TOKEN`.
pub open spec fn auth_token_bytes() -> Seq<u8> {
    seq![65u8, 66u8, 67u8, 49u8, 50u8, 51u8]
}

/// The custom-data blob of the auth token.
pub fn auth_token_custom_data_blob() -> (b: Vec<u8>)
    ensures
        b@ == auth_token_bytes(),
{
    let b: Vec<u8> = vec![65u8, 66u8, 67u8, 49u8, 50u8, 51u8];
    assert(b@ =~= auth_token_bytes());
    b
}

/// The blobs with an `AuthToken` one added when there is none.
pub open spec fn with_auth_token(s: Seq<(Seq<char>, Seq<u8>)>) -> Seq<(Seq<char>, Seq<u8>)> {
    if blob_index(s, "AuthToken"@) >= 0 {
        s
    } else {
        s.push(("AuthToken"@, auth_token_bytes()))
    }
}

/// Adds the auth token blob under `AuthToken` unless one is there.
pub fn ensure_auth_token_in_custom_data(blobs: &mut IndexMap<String, Vec<u8>>)
    ensures
        blob_entries(*final(blobs)) == with_auth_token(blob_entries(*old(blobs))),
{
    if !blob_contains(blobs, "AuthToken") {
        blob_insert(blobs, str_to_string("AuthToken"), auth_token_custom_data_blob());
    }
}

// ---------------------------------------------------------------------------
// Writes to the roster
// ---------------------------------------------------------------------------
/// Whether custom data went to a row, and the registry after it: the blobs of
/// `ps` go, in order, into the custom data of the first row of `pid` in `gid`.
pub open spec fn custom_data_set(r: RegistryView, gid: i64, pid: i64, ps: Seq<(Seq<char>, Seq<u8>)>) -> (bool, RegistryView) {
    match game_of(r.games, gid) {
        None => (false, r),
        Some(g) => {
            let k = first_player(g.players, pid);
            if k < 0 {
                (false, r)
            } else {
                let p = g.players[k];
                (
                    true,
                    update_game(
                        r,
                        game_index(r.games, gid),
                        GameView {
                            players: g.players.update(
                                k,
                                PlayerView { custom_data: blobs_applied(p.custom_data, ps), ..p },
                            ),
                            ..g
                        },
                    ),
                )
            }
        },
    }
}

/// Whether the attribute write of (`key`, `value`) for `pid` in `gid`
/// changes nothing: the first row of `pid` has that value there already.
pub open spec fn attr_unchanged(r: RegistryView, gid: i64, pid: i64, key: Seq<char>, value: Seq<char>) -> bool {
    match game_of(r.games, gid) {
        Some(g) => {
            let k = first_player(g.players, pid);
            k >= 0 && attr_value(g.players[k].attribs, key) == Some(value)
        },
        None => false,
    }
}

/// The registry after the lobby write of one pair for `pid` in `gid`.
pub open spec fn attr_pair_set(r: RegistryView, gid: i64, pid: i64, key: Seq<char>, value: Seq<char>, host: i64, registered_pool_gid: Option<i64>) -> RegistryView {
    pending_attrs_set(
        r,
        gid,
        pid,
        seq![(key, value)],
        fallback_general(map_path_spec(r, host_reset_gid_spec(r, host, registered_pool_gid))),
    )
}

/// The registry after each pair of `ps` is written in turn.
pub open spec fn attr_pairs_set(r: RegistryView, gid: i64, pid: i64, ps: Seq<(Seq<char>, Seq<char>)>, host: i64, registered_pool_gid: Option<i64>) -> RegistryView
    decreases ps.len(),
{
    if ps.len() == 0 {
        r
    } else {
        attr_pair_set(
            attr_pairs_set(r, gid, pid, ps.drop_last(), host, registered_pool_gid),
            gid,
            pid,
            ps.last().0,
            ps.last().1,
            host,
            registered_pool_gid,
        )
    }
}

impl GameRegistry {
    /// Writes one player attribute of `persona_id` in `gid` through the lobby
    /// writes (see `set_pending_player_attrs`); whether it changes the row's value.
    pub fn set_player_attribute(
        &mut self,
        gid: i64,
        persona_id: i64,
        key: &str,
        value: &str,
        host: i64,
        registered_pool_gid: Option<i64>,
    ) -> (changed: bool)
        ensures
            changed == !attr_unchanged(old(self)@, gid, persona_id, key@, value@),
            final(self)@ == attr_pair_set(old(self)@, gid, persona_id, key@, value@, host, registered_pool_gid),
    {
        let unchanged = match self.get_game(gid) {
            Some(g) => match first_player_exec(&g.players, persona_id) {
                Some(k) => {
                    assert(players_view(g.players@)[k as int] == g.players@[k as int]@);
                    match attr_get(&g.players[k].attribs, key) {
                        Some(v) => crate::text::chars_eq(
                            &crate::text::str_chars(v.as_str()),
                            &crate::text::str_chars(value),
                        ),
                        None => false,
                    }
                },
                None => false,
            },
            None => false,
        };
        let mut attrs = crate::cnc::game_state::lobby_attrs::attr_new();
        crate::cnc::game_state::attr_insert(&mut attrs, str_to_string(key), str_to_string(value));
        assert(attr_entries(attrs) =~= seq![(key@, value@)]);
        self.set_pending_player_attrs(gid, persona_id, attrs, host, registered_pool_gid);
        !unchanged
    }

    /// Puts the blobs of `data`, in order, into the custom data of the first
    /// row of `persona_id` in `gid` (see `custom_data_set`); whether there was one.
    pub fn set_player_custom_data(&mut self, gid: i64, persona_id: i64, data: &IndexMap<String, Vec<u8>>) -> (found: bool)
        ensures
            (found, final(self)@) == custom_data_set(old(self)@, gid, persona_id, blob_entries(*data)),
    {
        proof {
            use_type_invariant(&*self);
        }
        let i = match self.find_game(gid) {
            Some(i) => i,
            None => return false,
        };
        let k = match first_player_exec(&self.games[i].players, persona_id) {
            Some(k) => k,
            None => return false,
        };
        let ghost before = self@.games;
        let mut g = self.take_game(i);
        let ghost ps = players_view(g.players@);
        let mut players: Vec<CncPlayer> = Vec::new();
        std::mem::swap(&mut players, &mut g.players);
        let mut p = players.remove(k);
        let ghost p0 = p@;
        assert(p0 == ps[k as int]);
        let pairs = blob_pairs(data);
        let ghost pv = blob_pairs_view(pairs@);
        let mut j: usize = 0;
        while j < pairs.len()
            invariant
                j <= pairs@.len(),
                pv == blob_pairs_view(pairs@),
                p@ == (PlayerView { custom_data: blobs_applied(p0.custom_data, pv.subrange(0, j as int)), ..p0 }),
            decreases pairs@.len() - j,
        {
            let ghost t = pv.subrange(0, j + 1);
            assert(t.drop_last() =~= pv.subrange(0, j as int));
            assert(t.last() == (pairs@[j as int].0@, pairs@[j as int].1@));
            blob_insert(&mut p.custom_data, pairs[j].0.clone(), pairs[j].1.clone());
            j = j + 1;
        }
        assert(pv.subrange(0, j as int) =~= pv);
        let ghost pnew = p@;
        players.insert(k, p);
        assert(players_view(players@) =~= ps.update(k as int, pnew));
        g.players = players;
        self.put_game(i, g, Ghost(before));
        true
    }

    /// The GameManager attribute write of (`gid`, `persona_id`, `attrs`): none
    /// when `attrs` is empty; else the gid is seeded (see `seed_from_join`),
    /// each pair is written in turn (see `set_player_attribute`), and the write
    /// is kept as the last attribute change.
    pub fn apply_set_player_attributes(
        &mut self,
        gid: i64,
        persona_id: i64,
        attrs: IndexMap<String, String>,
        host: i64,
        host_name: &str,
        registered_pool_gid: Option<i64>,
    ) -> (r: Option<(i64, i64, IndexMap<String, String>)>)
        ensures
            attr_entries(attrs).len() == 0 ==> r is None && final(self)@ == old(self)@,
            attr_entries(attrs).len() > 0 ==> (r matches Some(x) && x.0 == gid && x.1 == persona_id && attr_entries(x.2)
                == attr_entries(attrs) && exists|mid: RegistryView|
                #![trigger join_seeded(old(self)@, mid, gid, host, host_name@, registered_pool_gid)]
                join_seeded(old(self)@, mid, gid, host, host_name@, registered_pool_gid) && final(self)@
                    == (RegistryView {
                    last_attr_change: Some((gid, persona_id, attr_entries(attrs))),
                    ..attr_pairs_set(mid, gid, persona_id, attr_entries(attrs), host, registered_pool_gid)
                })),
    {
        let pairs = attr_pairs(&attrs);
        if pairs.len() == 0 {
            return None;
        }
        self.seed_from_join(gid, host, host_name, registered_pool_gid);
        let ghost mid = self@;
        let ghost pv = pairs_view(pairs@);
        let mut j: usize = 0;
        while j < pairs.len()
            invariant
                j <= pairs@.len(),
                pv == pairs_view(pairs@),
                self@ == attr_pairs_set(mid, gid, persona_id, pv.subrange(0, j as int), host, registered_pool_gid),
            decreases pairs@.len() - j,
        {
            let ghost t = pv.subrange(0, j + 1);
            assert(t.drop_last() =~= pv.subrange(0, j as int));
            assert(t.last() == (pairs@[j as int].0@, pairs@[j as int].1@));
            let _ = self.set_player_attribute(
                gid,
                persona_id,
                pairs[j].0.as_str(),
                pairs[j].1.as_str(),
                host,
                registered_pool_gid,
            );
            j = j + 1;
        }
        assert(pv.subrange(0, j as int) =~= pv);
        proof {
            use_type_invariant(&*self);
        }
        self.last_attr_change = Some((gid, persona_id, attr_clone(&attrs)));
        Some((gid, persona_id, attrs))
    }

    /// Takes the last attribute change, leaving none.
    pub fn take_last_attr_change(&mut self) -> (r: Option<(i64, i64, IndexMap<String, String>)>)
        ensures
            match r {
                Some(x) => old(self)@.last_attr_change == Some((x.0, x.1, attr_entries(x.2))),
                None => old(self)@.last_attr_change is None,
            },
            final(self)@ == (RegistryView { last_attr_change: None, ..old(self)@ }),
    {
        proof {
            use_type_invariant(&*self);
        }
        let mut r: Option<(i64, i64, IndexMap<String, String>)> = None;
        std::mem::swap(&mut r, &mut self.last_attr_change);
        r
    }

    /// The GameManager custom-data write of (`gid`, `persona_id`, `blobs`): the
    /// auth token blob is added when missing, the gid is seeded (see
    /// `seed_from_join`), the blobs go to the row (see `set_player_custom_data`),
    /// and the write is kept as the last custom-data change.
    pub fn apply_set_player_custom_data(
        &mut self,
        gid: i64,
        persona_id: i64,
        blobs: IndexMap<String, Vec<u8>>,
        host: i64,
        host_name: &str,
        registered_pool_gid: Option<i64>,
    ) -> (r: (i64, i64, IndexMap<String, Vec<u8>>))
        ensures
            r.0 == gid && r.1 == persona_id && blob_entries(r.2) == with_auth_token(blob_entries(blobs)),
            exists|mid: RegistryView|
                #![trigger join_seeded(old(self)@, mid, gid, host, host_name@, registered_pool_gid)]
                join_seeded(old(self)@, mid, gid, host, host_name@, registered_pool_gid) && final(self)@
                    == (RegistryView {
                    last_custom_data_change: Some((gid, persona_id, with_auth_token(blob_entries(blobs)))),
                    ..custom_data_set(mid, gid, persona_id, with_auth_token(blob_entries(blobs))).1
                }),
    {
        let mut blobs = blobs;
        ensure_auth_token_in_custom_data(&mut blobs);
        self.seed_from_join(gid, host, host_name, registered_pool_gid);
        let ghost mid = self@;
        let _ = self.set_player_custom_data(gid, persona_id, &blobs);
        proof {
            use_type_invariant(&*self);
        }
        self.last_custom_data_change = Some((gid, persona_id, blob_map_clone(&blobs)));
        assert(join_seeded(old(self)@, mid, gid, host, host_name@, registered_pool_gid));
        (gid, persona_id, blobs)
    }

    /// Takes the last custom-data change, leaving none.
    pub fn take_last_custom_data_change(&mut self) -> (r: Option<(i64, i64, IndexMap<String, Vec<u8>>)>)
        ensures
            match r {
                Some(x) => old(self)@.last_custom_data_change == Some((x.0, x.1, blob_entries(x.2))),
                None => old(self)@.last_custom_data_change is None,
            },
            final(self)@ == (RegistryView { last_custom_data_change: None, ..old(self)@ }),
    {
        proof {
            use_type_invariant(&*self);
        }
        let mut r: Option<(i64, i64, IndexMap<String, Vec<u8>>)> = None;
        std::mem::swap(&mut r, &mut self.last_custom_data_change);
        r
    }
}

} // verus!
