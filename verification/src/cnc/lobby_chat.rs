//! Lobby chat: the recent lines of each game room.
use vstd::prelude::*;
use crate::text::{chars_to_string, slice_range, str_chars, trim, trim_vec};

verus! {

broadcast use vstd::string::group_string_axioms;

/// Lines a room keeps.
pub const LOBBY_CHAT_MAX_LINES: usize = 80;

/// Characters kept of a user name.
pub const LOBBY_CHAT_MAX_USER: usize = 32;

/// Characters kept of a message.
pub const LOBBY_CHAT_MAX_TEXT: usize = 200;

/// One chat line.
#[derive(Debug, Clone)]
pub struct LobbyChatLine {
    pub user: String,
    pub text: String,
}

pub type LineView = (Seq<char>, Seq<char>);

pub open spec fn lines_view(v: Seq<LobbyChatLine>) -> Seq<LineView> {
    v.map_values(|l: LobbyChatLine| (l.user@, l.text@))
}

/// The chat rooms, one per gid.
pub struct LobbyChat {
    rooms: Vec<(i64, Vec<LobbyChatLine>)>,
}

pub open spec fn rooms_view(v: Seq<(i64, Vec<LobbyChatLine>)>) -> Seq<(i64, Seq<LineView>)> {
    v.map_values(|r: (i64, Vec<LobbyChatLine>)| (r.0, lines_view(r.1@)))
}

impl View for LobbyChat {
    type V = Seq<(i64, Seq<LineView>)>;

    closed spec fn view(&self) -> Seq<(i64, Seq<LineView>)> {
        rooms_view(self.rooms@)
    }
}

/// Index of the room of `gid`, or -1.
pub open spec fn room_index(s: Seq<(i64, Seq<LineView>)>, gid: i64) -> int
    decreases s.len(),
{
    if s.len() == 0 {
        -1
    } else if s.last().0 == gid {
        s.len() - 1
    } else {
        room_index(s.drop_last(), gid)
    }
}

/// The lines of room `gid`, oldest first.
pub open spec fn chat_lines(s: Seq<(i64, Seq<LineView>)>, gid: i64) -> Seq<LineView> {
    if room_index(s, gid) >= 0 {
        s[room_index(s, gid)].1
    } else {
        Seq::empty()
    }
}

/// The first `n` characters of `s`.
pub open spec fn take_chars(s: Seq<char>, n: nat) -> Seq<char> {
    if s.len() > n {
        s.subrange(0, n as int)
    } else {
        s
    }
}

/// The last `n` lines of `s`.
pub open spec fn last_lines(s: Seq<LineView>, n: nat) -> Seq<LineView> {
    if s.len() > n {
        s.subrange(s.len() - n, s.len() as int)
    } else {
        s
    }
}

/// The lines of a room after a post by `user` of `text`: both cut to length,
/// a blank message ignored, and only the last lines kept.
pub open spec fn posted(lines: Seq<LineView>, user: Seq<char>, text: Seq<char>) -> Seq<LineView> {
    let t = take_chars(text, LOBBY_CHAT_MAX_TEXT as nat);
    if trim(t).len() == 0 {
        lines
    } else {
        last_lines(lines.push((take_chars(user, LOBBY_CHAT_MAX_USER as nat), t)), LOBBY_CHAT_MAX_LINES as nat)
    }
}

pub proof fn lemma_room_index(s: Seq<(i64, Seq<LineView>)>, gid: i64)
    ensures
        -1 <= room_index(s, gid) < s.len(),
        room_index(s, gid) >= 0 ==> s[room_index(s, gid)].0 == gid,
        room_index(s, gid) < 0 ==> forall|k: int| 0 <= k < s.len() ==> (#[trigger] s[k]).0 != gid,
    decreases s.len(),
{
    if s.len() > 0 && s.last().0 != gid {
        lemma_room_index(s.drop_last(), gid);
        assert forall|k: int| 0 <= k < s.len() - 1 implies s.drop_last()[k] == s[k] by {}
    }
}

fn take_exec(s: &str, n: usize) -> (r: String)
    ensures
        r@ == take_chars(s@, n as nat),
{
    let v = str_chars(s);
    if v.len() > n {
        chars_to_string(&slice_range(&v, 0, n))
    } else {
        chars_to_string(&v)
    }
}

fn clone_lines(v: &Vec<LobbyChatLine>) -> (r: Vec<LobbyChatLine>)
    ensures
        lines_view(r@) == lines_view(v@),
{
    let mut r: Vec<LobbyChatLine> = Vec::new();
    let mut i: usize = 0;
    while i < v.len()
        invariant
            i <= v@.len(),
            lines_view(r@) == lines_view(v@).subrange(0, i as int),
        decreases v@.len() - i,
    {
        let ghost before = lines_view(r@);
        r.push(LobbyChatLine { user: v[i].user.clone(), text: v[i].text.clone() });
        assert(lines_view(r@) =~= before.push((v@[i as int].user@, v@[i as int].text@)));
        assert(lines_view(v@).subrange(0, i + 1) =~= lines_view(v@).subrange(0, i as int).push(
            (v@[i as int].user@, v@[i as int].text@),
        ));
        i = i + 1;
    }
    assert(lines_view(v@).subrange(0, i as int) =~= lines_view(v@));
    r
}

impl LobbyChat {
    #[verifier::type_invariant]
    spec fn inv(self) -> bool {
        forall|k: int| 0 <= k < self.rooms@.len() ==> (#[trigger] self.rooms@[k]).1@.len() <= LOBBY_CHAT_MAX_LINES
    }

    /// No room has any line.
    pub fn new() -> (c: Self)
        ensures
            c@ == Seq::<(i64, Seq<LineView>)>::empty(),
            forall|gid: i64| #[trigger] chat_lines(c@, gid) == Seq::<LineView>::empty(),
    {
        let c = LobbyChat { rooms: Vec::new() };
        assert(rooms_view(c.rooms@) =~= Seq::<(i64, Seq<LineView>)>::empty());
        c
    }

    fn find(&self, gid: i64) -> (r: Option<usize>)
        ensures
            match r {
                Some(i) => i < self@.len() && room_index(self@, gid) == i,
                None => room_index(self@, gid) == -1,
            },
    {
        let ghost s = self@;
        let mut i: usize = self.rooms.len();
        assert(s.subrange(0, i as int) =~= s);
        while i > 0
            invariant
                i <= s.len(),
                s == rooms_view(self.rooms@),
                room_index(s, gid) == room_index(s.subrange(0, i as int), gid),
            decreases i,
        {
            let ghost t = s.subrange(0, i as int);
            assert(t.drop_last() =~= s.subrange(0, i - 1));
            assert(t.last().0 == self.rooms@[i - 1].0);
            if self.rooms[i - 1].0 == gid {
                return Some(i - 1);
            }
            i = i - 1;
        }
        None
    }

    /// The lines of room `gid`, oldest first.
    pub fn lobby_chat(&self, gid: i64) -> (v: Vec<LobbyChatLine>)
        ensures
            lines_view(v@) == chat_lines(self@, gid),
    {
        match self.find(gid) {
            Some(i) => {
                assert(self@[i as int].1 == lines_view(self.rooms@[i as int].1@));
                clone_lines(&self.rooms[i].1)
            },
            None => Vec::new(),
        }
    }

    /// Posts `text` by `user` to room `gid` (see `posted`); the room's lines after it.
    pub fn lobby_chat_push(&mut self, gid: i64, user: &str, text: &str) -> (v: Vec<LobbyChatLine>)
        ensures
            forall|g: i64| #[trigger] chat_lines(final(self)@, g) == if g == gid {
                posted(chat_lines(old(self)@, gid), user@, text@)
            } else {
                chat_lines(old(self)@, g)
            },
            lines_view(v@) == chat_lines(final(self)@, gid),
    {
        proof {
            use_type_invariant(&*self);
        }
        let u = take_exec(user, LOBBY_CHAT_MAX_USER);
        let t = take_exec(text, LOBBY_CHAT_MAX_TEXT);
        if trim_vec(&str_chars(t.as_str())).len() == 0 {
            return self.lobby_chat(gid);
        }
        let ghost s = self@;
        let ghost line = (u@, t@);
        let found = self.find(gid);
        let mut rooms: Vec<(i64, Vec<LobbyChatLine>)> = Vec::new();
        std::mem::swap(&mut rooms, &mut self.rooms);
        assert(rooms_view(rooms@) == s);
        let mut lines: Vec<LobbyChatLine> = match found {
            Some(i) => {
                let room = rooms.remove(i);
                assert(lines_view(room.1@) == s[i as int].1);
                rooms.insert(i, (gid, Vec::new()));
                room.1
            },
            None => Vec::new(),
        };
        let ghost old_lines = lines_view(lines@);
        assert(old_lines == chat_lines(s, gid));
        lines.push(LobbyChatLine { user: u, text: t });
        assert(lines_view(lines@) =~= old_lines.push(line));
        let n = lines.len();
        let kept = if n > LOBBY_CHAT_MAX_LINES {
            let mut k: Vec<LobbyChatLine> = Vec::new();
            let mut j: usize = n - LOBBY_CHAT_MAX_LINES;
            while j < n
                invariant
                    n == lines@.len(),
                    n > LOBBY_CHAT_MAX_LINES,
                    n - LOBBY_CHAT_MAX_LINES <= j <= n,
                    lines_view(k@) == lines_view(lines@).subrange(n - LOBBY_CHAT_MAX_LINES, j as int),
                decreases n - j,
            {
                let ghost before = lines_view(k@);
                k.push(LobbyChatLine { user: lines[j].user.clone(), text: lines[j].text.clone() });
                assert(lines_view(k@) =~= before.push((lines@[j as int].user@, lines@[j as int].text@)));
                assert(lines_view(lines@)[j as int] == (lines@[j as int].user@, lines@[j as int].text@));
                assert(lines_view(lines@).subrange(n - LOBBY_CHAT_MAX_LINES, j + 1) =~= lines_view(lines@).subrange(
                    n - LOBBY_CHAT_MAX_LINES,
                    j as int,
                ).push(lines_view(lines@)[j as int]));
                j = j + 1;
            }
            k
        } else {
            lines
        };
        let ghost nl = lines_view(kept@);
        assert(nl =~= posted(chat_lines(s, gid), u@, t@)) by {
            assert(trim(t@).len() != 0);
        }
        let out = clone_lines(&kept);
        match found {
            Some(i) => {
                rooms.set(i, (gid, kept));
                proof {
                    lemma_room_index(s, gid);
                }
            },
            None => {
                rooms.push((gid, kept));
            },
        }
        self.rooms = rooms;
        proof {
            let s1 = self@;
            lemma_room_index(s, gid);
            match found {
                Some(i) => {
                    assert(s1 =~= s.update(i as int, (gid, nl)));
                },
                None => {
                    assert(s1 =~= s.push((gid, nl)));
                },
            }
            assert forall|g: i64| #[trigger] chat_lines(s1, g) == if g == gid {
                posted(chat_lines(s, gid), user@, text@)
            } else {
                chat_lines(s, g)
            } by {
                lemma_room_index(s1, g);
                lemma_room_index(s, g);
                lemma_room_index_update(s, found, gid, nl, g);
            }
        }
        out
    }
}

proof fn lemma_room_index_update(s: Seq<(i64, Seq<LineView>)>, found: Option<usize>, gid: i64, nl: Seq<LineView>, g: i64)
    requires
        match found {
            Some(i) => i < s.len() && room_index(s, gid) == i,
            None => room_index(s, gid) == -1,
        },
    ensures
        ({
            let s1 = match found {
                Some(i) => s.update(i as int, (gid, nl)),
                None => s.push((gid, nl)),
            };
            chat_lines(s1, g) == if g == gid {
                nl
            } else {
                chat_lines(s, g)
            }
        }),
    decreases s.len(),
{
    let s1 = match found {
        Some(i) => s.update(i as int, (gid, nl)),
        None => s.push((gid, nl)),
    };
    lemma_room_index(s, g);
    lemma_room_index(s, gid);
    match found {
        None => {
            assert(s1.drop_last() =~= s);
            if g != gid {
                assert(room_index(s1, g) == room_index(s, g));
                if room_index(s, g) >= 0 {
                    assert(s1[room_index(s, g)] == s[room_index(s, g)]);
                }
            }
        },
        Some(i) => {
            if i as int == s.len() - 1 {
                assert(s1.drop_last() =~= s.drop_last());
                if g != gid {
                    assert(room_index(s1, g) == room_index(s.drop_last(), g));
                    assert(room_index(s, g) == room_index(s.drop_last(), g));
                    lemma_room_index(s.drop_last(), g);
                    if room_index(s, g) >= 0 {
                        assert(s1[room_index(s, g)] == s[room_index(s, g)]);
                    }
                }
            } else {
                assert(s.last().0 != gid);
                let d1 = s.drop_last().update(i as int, (gid, nl));
                assert(s1.drop_last() =~= d1);
                assert(room_index(s.drop_last(), gid) == i);
                lemma_room_index_update(s.drop_last(), found, gid, nl, g);
                lemma_room_index(d1, g);
                lemma_room_index(s.drop_last(), g);
                if s.last().0 == g {
                    assert(s1.last() == s.last());
                } else {
                    assert(room_index(s1, g) == room_index(d1, g));
                    assert(room_index(s, g) == room_index(s.drop_last(), g));
                    if room_index(d1, g) >= 0 {
                        assert(s1[room_index(d1, g)] == d1[room_index(d1, g)]);
                    }
                    if room_index(s, g) >= 0 {
                        assert(s[room_index(s, g)] == s.drop_last()[room_index(s, g)]);
                    }
                }
            }
        },
    }
}

/// A room never holds more than the kept number of lines, and a message that
/// is not blank is its newest line after the post.
pub proof fn law_chat_post(lines: Seq<LineView>, user: Seq<char>, text: Seq<char>)
    requires
        lines.len() <= LOBBY_CHAT_MAX_LINES,
    ensures
        posted(lines, user, text).len() <= LOBBY_CHAT_MAX_LINES,
        trim(take_chars(text, LOBBY_CHAT_MAX_TEXT as nat)).len() != 0 ==> posted(lines, user, text).last() == (
            take_chars(user, LOBBY_CHAT_MAX_USER as nat),
            take_chars(text, LOBBY_CHAT_MAX_TEXT as nat),
        ),
{
}

} // verus!
