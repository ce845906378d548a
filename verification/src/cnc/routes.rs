//! Which title-specific HTTP route a request reaches, and the file name of a
//! probe dump upload.
use vstd::prelude::*;
use vstd::string::StringSliceAdditionalSpecFns;
use crate::cnc::dedicated_pool::strip_leading;
use crate::text::{
    chars_eq, chars_to_string, eq_lit, first_index_of, lower, lower_vec, push_str, slice_range,
    str_chars, find_char,
};

verus! {

broadcast use vstd::string::group_string_axioms;

/// The routes of `/cnc/...` requests with a body.
#[derive(Debug, Clone, Copy, PartialEq, Eq, Structural)]
pub enum CncPostRoute {
    OnlineCount,
    BuildInfo,
    StartBattle,
    SelectMap,
    PlayerAttrs,
    ShellTheme,
    PlayerProbe,
    GameList,
    GamePassword,
    VerifyGamePassword,
    ServerPing,
    LeaveGame,
    PlayerReady,
    LobbyRoster,
    DedicatedPool,
    ProbeDump,
}

/// A routed request: the route, whether it was a POST, and the query string.
#[derive(Debug, Clone)]
pub struct CncPostRequest {
    pub route: CncPostRoute,
    pub is_post: bool,
    pub query: Option<String>,
}

/// Path and query: split at the first `?`.
pub open spec fn split_query(path: Seq<char>) -> (Seq<char>, Option<Seq<char>>) {
    let i = first_index_of(path, '?');
    if i >= 0 {
        (path.subrange(0, i), Some(path.subrange(i + 1, path.len() as int)))
    } else {
        (path, None)
    }
}

/// The route of a `GET`/`POST` (any case) to `path`.
pub open spec fn post_route(method: Seq<char>, path: Seq<char>) -> Option<CncPostRoute> {
    let is_post = lower(method) == "post"@;
    let is_get = lower(method) == "get"@;
    let base = strip_leading(split_query(path).0, '/');
    if !is_post && !is_get {
        None
    } else if base == "cnc/online-count"@ && is_get {
        Some(CncPostRoute::OnlineCount)
    } else if base == "cnc/build-info"@ && is_get {
        Some(CncPostRoute::BuildInfo)
    } else if base == "cnc/api/start-battle"@ && is_post {
        Some(CncPostRoute::StartBattle)
    } else if base == "cnc/select-map"@ {
        Some(CncPostRoute::SelectMap)
    } else if base == "cnc/player-attrs"@ && is_post {
        Some(CncPostRoute::PlayerAttrs)
    } else if base == "cnc/shell-theme"@ {
        Some(CncPostRoute::ShellTheme)
    } else if base == "cnc/player-probe"@ && is_get {
        Some(CncPostRoute::PlayerProbe)
    } else if base == "cnc/game-list"@ && is_get {
        Some(CncPostRoute::GameList)
    } else if base == "cnc/game-password"@ && is_post {
        Some(CncPostRoute::GamePassword)
    } else if base == "cnc/verify-game-password"@ && is_post {
        Some(CncPostRoute::VerifyGamePassword)
    } else if base == "cnc/server-ping"@ && is_get {
        Some(CncPostRoute::ServerPing)
    } else if base == "cnc/leave-game"@ && is_post {
        Some(CncPostRoute::LeaveGame)
    } else if base == "cnc/player-ready"@ && is_post {
        Some(CncPostRoute::PlayerReady)
    } else if base == "cnc/lobby-roster"@ && is_get {
        Some(CncPostRoute::LobbyRoster)
    } else if base == "cnc/dedicated-pool"@ && is_get {
        Some(CncPostRoute::DedicatedPool)
    } else if is_post && base == "cnc/probe-dump"@ {
        Some(CncPostRoute::ProbeDump)
    } else {
        None
    }
}

fn strip_leading_slashes(v: Vec<char>) -> (r: Vec<char>)
    ensures
        r@ == strip_leading(v@, '/'),
    decreases v@.len(),
{
    if v.len() > 0 && v[0] == '/' {
        let n = v.len();
        let t = slice_range(&v, 1, n);
        assert(t@ =~= v@.drop_first());
        strip_leading_slashes(t)
    } else {
        v
    }
}

/// Routes a title HTTP request; `None` when it is not one of these routes.
pub fn try_handle_cnc_post(method: &str, path: &str) -> (r: Option<CncPostRequest>)
    ensures
        match r {
            Some(q) => post_route(method@, path@) == Some(q.route) && q.is_post == (lower(method@)
                == "post"@) && match q.query {
                Some(s) => split_query(path@).1 == Some(s@),
                None => split_query(path@).1 is None,
            },
            None => post_route(method@, path@) is None,
        },
{
    let m = lower_vec(&str_chars(method));
    let is_post = eq_lit(&m, "post");
    let is_get = eq_lit(&m, "get");
    let p = str_chars(path);
    let n = p.len();
    let (b, q) = match find_char(&p, '?') {
        Some(i) => (slice_range(&p, 0, i), Some(chars_to_string(&slice_range(&p, i + 1, n)))),
        None => (p, None),
    };
    assert(b@ == split_query(path@).0);
    let base = strip_leading_slashes(b);
    let route = if !is_post && !is_get {
        return None;
    } else if eq_lit(&base, "cnc/online-count") && is_get {
        CncPostRoute::OnlineCount
    } else if eq_lit(&base, "cnc/build-info") && is_get {
        CncPostRoute::BuildInfo
    } else if eq_lit(&base, "cnc/api/start-battle") && is_post {
        CncPostRoute::StartBattle
    } else if eq_lit(&base, "cnc/select-map") {
        CncPostRoute::SelectMap
    } else if eq_lit(&base, "cnc/player-attrs") && is_post {
        CncPostRoute::PlayerAttrs
    } else if eq_lit(&base, "cnc/shell-theme") {
        CncPostRoute::ShellTheme
    } else if eq_lit(&base, "cnc/player-probe") && is_get {
        CncPostRoute::PlayerProbe
    } else if eq_lit(&base, "cnc/game-list") && is_get {
        CncPostRoute::GameList
    } else if eq_lit(&base, "cnc/game-password") && is_post {
        CncPostRoute::GamePassword
    } else if eq_lit(&base, "cnc/verify-game-password") && is_post {
        CncPostRoute::VerifyGamePassword
    } else if eq_lit(&base, "cnc/server-ping") && is_get {
        CncPostRoute::ServerPing
    } else if eq_lit(&base, "cnc/leave-game") && is_post {
        CncPostRoute::LeaveGame
    } else if eq_lit(&base, "cnc/player-ready") && is_post {
        CncPostRoute::PlayerReady
    } else if eq_lit(&base, "cnc/lobby-roster") && is_get {
        CncPostRoute::LobbyRoster
    } else if eq_lit(&base, "cnc/dedicated-pool") && is_get {
        CncPostRoute::DedicatedPool
    } else if is_post && eq_lit(&base, "cnc/probe-dump") {
        CncPostRoute::ProbeDump
    } else {
        return None;
    };
    Some(CncPostRequest { route, is_post, query: q })
}

// ---------------------------------------------------------------------------
// Probe dump file name
// ---------------------------------------------------------------------------
/// `char::is_alphanumeric` (Unicode `Alphabetic` or `Numeric`).
pub uninterp spec fn is_alnum(c: char) -> bool;

pub open spec fn ascii_alnum(c: char) -> bool {
    ('a' <= c <= 'z') || ('A' <= c <= 'Z') || ('0' <= c <= '9')
}

/// `char::is_alphanumeric`; on ASCII, exactly the letters and digits.
#[verifier::external_body]
fn char_is_alphanumeric(c: char) -> (b: bool)
    ensures
        b == is_alnum(c),
        (c as u32) < 128 ==> (b == ascii_alnum(c)),
{
    c.is_alphanumeric()
}

/// What `String::from_utf8_lossy` makes of the bytes.
pub uninterp spec fn lossy_text(b: Seq<u8>) -> Seq<char>;

/// `String::from_utf8_lossy`, owned; ASCII bytes read as themselves.
#[verifier::external_body]
fn utf8_lossy(b: &[u8]) -> (s: String)
    ensures
        s@ == lossy_text(b@),
        (forall|i: int| 0 <= i < b@.len() ==> b@[i] < 128) ==> s@ == b@.map_values(|x: u8| x as char),
{
    String::from_utf8_lossy(b).into_owned()
}

pub open spec fn hex_val(c: u8) -> Option<u8> {
    if 48 <= c <= 57 {
        Some((c - 48) as u8)
    } else if 97 <= c <= 102 {
        Some((c - 87) as u8)
    } else if 65 <= c <= 70 {
        Some((c - 55) as u8)
    } else {
        None
    }
}

/// `u8::from_str_radix` of two bytes in base 16 (a leading `+` allowed).
pub open spec fn hex_pair(a: u8, b: u8) -> Option<u8> {
    if a == 43 {
        hex_val(b)
    } else {
        match (hex_val(a), hex_val(b)) {
            (Some(x), Some(y)) => Some((x * 16 + y) as u8),
            _ => None,
        }
    }
}

/// Form decoding: `%XX` becomes its byte, `+` a space.
pub open spec fn pct_decode(b: Seq<u8>) -> Seq<u8>
    decreases b.len(),
{
    if b.len() == 0 {
        b
    } else if b[0] == 37 && 2 < b.len() && hex_pair(b[1], b[2]) is Some {
        seq![hex_pair(b[1], b[2]).unwrap()] + pct_decode(b.skip(3))
    } else if b[0] == 43 {
        seq![32u8] + pct_decode(b.skip(1))
    } else {
        seq![b[0]] + pct_decode(b.skip(1))
    }
}

fn hex_val_exec(c: u8) -> (r: Option<u8>)
    ensures
        r == hex_val(c),
{
    if 48 <= c && c <= 57 {
        Some(c - 48)
    } else if 97 <= c && c <= 102 {
        Some(c - 87)
    } else if 65 <= c && c <= 70 {
        Some(c - 55)
    } else {
        None
    }
}

fn hex_pair_exec(a: u8, b: u8) -> (r: Option<u8>)
    ensures
        r == hex_pair(a, b),
{
    if a == 43 {
        hex_val_exec(b)
    } else {
        match (hex_val_exec(a), hex_val_exec(b)) {
            (Some(x), Some(y)) => Some(x * 16 + y),
            _ => None,
        }
    }
}

fn percent_decode_bytes(b: &[u8]) -> (out: Vec<u8>)
    ensures
        out@ == pct_decode(b@),
{
    let mut out: Vec<u8> = Vec::new();
    let mut i: usize = 0;
    assert(b@.skip(0) =~= b@);
    while i < b.len()
        invariant
            i <= b@.len(),
            out@ + pct_decode(b@.skip(i as int)) == pct_decode(b@),
        decreases b@.len() - i,
    {
        let ghost s = b@.skip(i as int);
        if b[i] == 37 && b.len() - i > 2 {
            match hex_pair_exec(b[i + 1], b[i + 2]) {
                Some(x) => {
                    assert(s[1] == b@[i + 1] && s[2] == b@[i + 2]);
                    assert(s.skip(3) =~= b@.skip(i + 3));
                    assert(out@.push(x) + pct_decode(b@.skip(i + 3)) =~= out@ + pct_decode(s));
                    out.push(x);
                    i = i + 3;
                    continue;
                },
                None => {},
            }
        }
        assert(s.skip(1) =~= b@.skip(i + 1));
        if b[i] == 43 {
            assert(out@.push(32u8) + pct_decode(b@.skip(i + 1)) =~= out@ + pct_decode(s));
            out.push(32);
        } else {
            assert(out@.push(b[i as int]) + pct_decode(b@.skip(i + 1)) =~= out@ + pct_decode(s));
            out.push(b[i]);
        }
        i = i + 1;
    }
    assert(pct_decode(b@.skip(i as int)) =~= Seq::<u8>::empty());
    assert(out@ + Seq::<u8>::empty() =~= out@);
    out
}

/// File-name characters: alphanumerics, `.`, `-`, `_` stay, `%` goes, anything
/// else becomes `_`.
pub open spec fn sanitize_chars(s: Seq<char>) -> Seq<char>
    decreases s.len(),
{
    if s.len() == 0 {
        s
    } else {
        let r = sanitize_chars(s.drop_last());
        let c = s.last();
        if is_alnum(c) || c == '.' || c == '-' || c == '_' {
            r.push(c)
        } else if c == '%' {
            r
        } else {
            r.push('_')
        }
    }
}

/// The first 120 characters sanitized; empty or `.` gives the default name.
pub open spec fn probe_dump_name(raw: Seq<char>) -> Seq<char> {
    let s = sanitize_chars(if raw.len() > 120 {
        raw.subrange(0, 120)
    } else {
        raw
    });
    if s.len() == 0 || s == "."@ {
        "cnc-probe-log.txt"@
    } else {
        s
    }
}

pub fn sanitize_probe_dump_filename(raw: &str) -> (s: String)
    ensures
        s@ == probe_dump_name(raw@),
{
    let v = str_chars(raw);
    let n = if v.len() > 120 {
        120
    } else {
        v.len()
    };
    let ghost src = if raw@.len() > 120 {
        raw@.subrange(0, 120)
    } else {
        raw@
    };
    assert(v@.subrange(0, n as int) =~= src);
    let mut o: Vec<char> = Vec::new();
    let mut i: usize = 0;
    while i < n
        invariant
            i <= n <= v@.len(),
            v@.subrange(0, n as int) == src,
            o@ == sanitize_chars(v@.subrange(0, i as int)),
        decreases n - i,
    {
        assert(v@.subrange(0, i + 1).drop_last() =~= v@.subrange(0, i as int));
        let c = v[i];
        if char_is_alphanumeric(c) || c == '.' || c == '-' || c == '_' {
            o.push(c);
        } else if c == '%' {
        } else {
            o.push('_');
        }
        i = i + 1;
    }
    if o.len() == 0 || eq_lit(&o, ".") {
        chars_to_string(&str_chars("cnc-probe-log.txt"))
    } else {
        chars_to_string(&o)
    }
}

/// `s` cut at each `c`.
pub open spec fn split_char(s: Seq<char>, c: char) -> Seq<Seq<char>>
    decreases s.len(),
{
    if s.len() == 0 {
        seq![Seq::<char>::empty()]
    } else {
        let r = split_char(s.drop_last(), c);
        if s.last() == c {
            r.push(Seq::<char>::empty())
        } else {
            r.update(r.len() - 1, r.last().push(s.last()))
        }
    }
}

pub(crate) proof fn lemma_split_char_nonempty(s: Seq<char>, c: char)
    ensures
        split_char(s, c).len() >= 1,
    decreases s.len(),
{
    if s.len() > 0 {
        lemma_split_char_nonempty(s.drop_last(), c);
    }
}

/// The value of the first `key=value` pair whose key is `key`.
pub open spec fn query_value(pairs: Seq<Seq<char>>, key: Seq<char>) -> Option<Seq<char>>
    decreases pairs.len(),
{
    if pairs.len() == 0 {
        None
    } else {
        let p = pairs[0];
        let i = first_index_of(p, '=');
        if i >= 0 && p.subrange(0, i) == key {
            Some(p.subrange(i + 1, p.len() as int))
        } else {
            query_value(pairs.drop_first(), key)
        }
    }
}

/// The name a probe dump is saved under: the `filename` query parameter, form
/// decoded and sanitized, else `cnc-probe-log.txt`.
pub open spec fn probe_dump_filename(query: Option<Seq<char>>) -> Seq<char> {
    match query {
        Some(q) => match query_value(split_char(q, '&'), "filename"@) {
            Some(v) => probe_dump_name(lossy_text(pct_decode(vstd::utf8::encode_utf8(v)))),
            None => "cnc-probe-log.txt"@,
        },
        None => "cnc-probe-log.txt"@,
    }
}

pub open spec fn pieces_view(v: Seq<Vec<char>>) -> Seq<Seq<char>> {
    v.map_values(|x: Vec<char>| x@)
}

pub(crate) fn split_char_exec(v: &Vec<char>, c: char) -> (r: Vec<Vec<char>>)
    ensures
        pieces_view(r@) == split_char(v@, c),
{
    let mut done: Vec<Vec<char>> = Vec::new();
    let mut cur: Vec<char> = Vec::new();
    let mut i: usize = 0;
    assert(v@.subrange(0, 0) =~= Seq::<char>::empty());
    assert(pieces_view(done@).push(cur@) =~= seq![Seq::<char>::empty()]);
    while i < v.len()
        invariant
            i <= v@.len(),
            split_char(v@.subrange(0, i as int), c) == pieces_view(done@).push(cur@),
        decreases v@.len() - i,
    {
        let x = v[i];
        proof {
            let t = v@.subrange(0, i + 1);
            assert(t.drop_last() =~= v@.subrange(0, i as int));
            assert(t.last() == x);
            lemma_split_char_nonempty(t.drop_last(), c);
        }
        if x == c {
            let ghost before = pieces_view(done@);
            let mut fresh: Vec<char> = Vec::new();
            std::mem::swap(&mut fresh, &mut cur);
            let ghost fv = fresh@;
            done.push(fresh);
            assert(pieces_view(done@) =~= before.push(fv));
            assert(split_char(v@.subrange(0, i + 1), c) =~= pieces_view(done@).push(cur@));
        } else {
            cur.push(x);
            assert(split_char(v@.subrange(0, i + 1), c) =~= pieces_view(done@).push(cur@));
        }
        i = i + 1;
    }
    assert(v@.subrange(0, i as int) =~= v@);
    let ghost before = pieces_view(done@);
    let ghost cv = cur@;
    done.push(cur);
    assert(pieces_view(done@) =~= before.push(cv));
    done
}

fn query_value_exec(pieces: &Vec<Vec<char>>, key: &str) -> (r: Option<Vec<char>>)
    ensures
        match r {
            Some(x) => query_value(pieces_view(pieces@), key@) == Some(x@),
            None => query_value(pieces_view(pieces@), key@) is None,
        },
{
    let k = str_chars(key);
    let ghost ps = pieces_view(pieces@);
    let mut i: usize = 0;
    assert(ps.skip(0) =~= ps);
    while i < pieces.len()
        invariant
            i <= pieces@.len(),
            ps == pieces_view(pieces@),
            k@ == key@,
            query_value(ps, key@) == query_value(ps.skip(i as int), key@),
        decreases pieces@.len() - i,
    {
        let p = &pieces[i];
        let ghost t = ps.skip(i as int);
        assert(t[0] == p@);
        assert(t.drop_first() =~= ps.skip(i + 1));
        match find_char(p, '=') {
            Some(j) => {
                let n = p.len();
                let head = slice_range(p, 0, j);
                if chars_eq(&head, &k) {
                    return Some(slice_range(p, j + 1, n));
                }
            },
            None => {},
        }
        i = i + 1;
    }
    None
}

/// A form value decoded: `%XX` and `+` turned into bytes, read back as text.
pub open spec fn form_decoded(v: Seq<char>) -> Seq<char> {
    lossy_text(pct_decode(vstd::utf8::encode_utf8(v)))
}

/// Decodes one form value (see `form_decoded`).
pub(crate) fn form_decode(v: &Vec<char>) -> (s: String)
    ensures
        s@ == form_decoded(v@),
{
    let vs = chars_to_string(v);
    let bytes = percent_decode_bytes(vs.as_str().as_bytes());
    utf8_lossy(&bytes)
}

/// The file name for a probe dump with query string `query`.
pub fn probe_dump_filename_of(query: Option<&str>) -> (s: String)
    ensures
        s@ == probe_dump_filename(match query {
            Some(q) => Some(q@),
            None => None,
        }),
{
    let q = match query {
        Some(q) => q,
        None => return chars_to_string(&str_chars("cnc-probe-log.txt")),
    };
    let v = str_chars(q);
    let pieces = split_char_exec(&v, '&');
    match query_value_exec(&pieces, "filename") {
        Some(value) => {
            let vs = chars_to_string(&value);
            let bytes = percent_decode_bytes(vs.as_str().as_bytes());
            let text = utf8_lossy(&bytes);
            sanitize_probe_dump_filename(text.as_str())
        },
        None => chars_to_string(&str_chars("cnc-probe-log.txt")),
    }
}

// ---------------------------------------------------------------------------
// Static files
// ---------------------------------------------------------------------------
pub open spec fn starts(s: Seq<char>, p: Seq<char>) -> bool {
    p.len() <= s.len() && s.subrange(0, p.len() as int) == p
}

/// The data-relative path that a local title URL path names.
pub open spec fn local_relative_path(clean: Seq<char>) -> Option<Seq<char>> {
    if starts(clean, "/cnc/data/"@) {
        Some(clean.skip(10))
    } else if starts(clean, "/cncg2/"@) {
        Some("cncg2/"@ + clean.skip(7))
    } else if starts(clean, "/config.cncg2/"@) {
        Some("config.cncg2/"@ + clean.skip(14))
    } else if clean == "/config.cncg2"@ {
        Some("config.cncg2/cncprod150805.cfg"@)
    } else {
        None
    }
}

/// The segments of a relative path: empty and `.` segments dropped; `None`
/// when one is `..`.
pub open spec fn clean_segments(segs: Seq<Seq<char>>) -> Option<Seq<Seq<char>>>
    decreases segs.len(),
{
    if segs.len() == 0 {
        Some(Seq::empty())
    } else {
        match clean_segments(segs.drop_last()) {
            None => None,
            Some(r) => {
                let x = segs.last();
                if x == ".."@ {
                    None
                } else if x.len() == 0 || x == "."@ {
                    Some(r)
                } else {
                    Some(r.push(x))
                }
            },
        }
    }
}

pub open spec fn join_segments(segs: Seq<Seq<char>>) -> Seq<char>
    decreases segs.len(),
{
    if segs.len() == 0 {
        Seq::empty()
    } else if segs.len() == 1 {
        segs[0]
    } else {
        join_segments(segs.drop_last()) + "/"@ + segs.last()
    }
}

/// A request path made safe (`/`-separated): query and leading `/` dropped,
/// no `..`, at least one segment.
pub open spec fn safe_relative_path(raw: Seq<char>) -> Option<Seq<char>> {
    let clean = strip_leading(split_query(raw).0, '/');
    if clean.len() == 0 {
        None
    } else {
        match clean_segments(split_char(clean, '/')) {
            Some(segs) => if segs.len() == 0 {
                None
            } else {
                Some(join_segments(segs))
            },
            None => None,
        }
    }
}

/// A static-file request: the data-relative path to look for and whether the
/// body is left out (`HEAD`).
#[derive(Debug, Clone)]
pub struct StaticFileRequest {
    pub relative_path: String,
    pub is_head: bool,
}

fn starts_exec(s: &Vec<char>, p: &str) -> (b: bool)
    ensures
        b == starts(s@, p@),
{
    let pc = str_chars(p);
    crate::text::starts_with(s, &pc)
}

fn local_relative_path_exec(clean: &Vec<char>) -> (r: Option<Vec<char>>)
    ensures
        match r {
            Some(x) => local_relative_path(clean@) == Some(x@),
            None => local_relative_path(clean@) is None,
        },
{
    proof {
        reveal_strlit("/cnc/data/");
        reveal_strlit("/cncg2/");
        reveal_strlit("/config.cncg2/");
    }
    let n = clean.len();
    if starts_exec(clean, "/cnc/data/") {
        let r = slice_range(clean, 10, n);
        assert(r@ =~= clean@.skip(10));
        return Some(r);
    }
    if starts_exec(clean, "/cncg2/") {
        let mut o = str_chars("cncg2/");
        crate::text::push_chars(&mut o, &slice_range(clean, 7, n));
        assert(o@ =~= "cncg2/"@ + clean@.skip(7));
        return Some(o);
    }
    if starts_exec(clean, "/config.cncg2/") {
        let mut o = str_chars("config.cncg2/");
        crate::text::push_chars(&mut o, &slice_range(clean, 14, n));
        assert(o@ =~= "config.cncg2/"@ + clean@.skip(14));
        return Some(o);
    }
    if eq_lit(clean, "/config.cncg2") {
        return Some(str_chars("config.cncg2/cncprod150805.cfg"));
    }
    None
}

fn safe_relative_path_exec(raw: &Vec<char>) -> (r: Option<Vec<char>>)
    ensures
        match r {
            Some(x) => safe_relative_path(raw@) == Some(x@),
            None => safe_relative_path(raw@) is None,
        },
{
    let n = raw.len();
    let before_q = match find_char(raw, '?') {
        Some(i) => slice_range(raw, 0, i),
        None => slice_range(raw, 0, n),
    };
    assert(before_q@ =~= split_query(raw@).0);
    let clean = strip_leading_slashes(before_q);
    assert(clean@ == strip_leading(split_query(raw@).0, '/'));
    if clean.len() == 0 {
        assert(safe_relative_path(raw@) is None);
        return None;
    }
    let segs = split_char_exec(&clean, '/');
    let ghost sv = pieces_view(segs@);
    let mut kept: Vec<Vec<char>> = Vec::new();
    let mut i: usize = 0;
    assert(sv.subrange(0, 0) =~= Seq::<Seq<char>>::empty());
    while i < segs.len()
        invariant
            i <= segs@.len(),
            sv == pieces_view(segs@),
            sv == split_char(clean@, '/'),
            clean@.len() > 0,
            clean@ == strip_leading(split_query(raw@).0, '/'),
            clean_segments(sv.subrange(0, i as int)) == Some(pieces_view(kept@)),
        decreases segs@.len() - i,
    {
        let x = &segs[i];
        assert(sv.subrange(0, i + 1).drop_last() =~= sv.subrange(0, i as int));
        assert(sv.subrange(0, i + 1).last() == x@);
        if eq_lit(x, "..") {
            proof {
                lemma_clean_segments_none(sv, i as int);
            }
            return None;
        }
        if x.len() == 0 || eq_lit(x, ".") {
        } else {
            let ghost before = pieces_view(kept@);
            let copy = slice_range(x, 0, x.len());
            assert(copy@ =~= x@);
            kept.push(copy);
            assert(pieces_view(kept@) =~= before.push(x@));
        }
        i = i + 1;
    }
    assert(sv.subrange(0, i as int) =~= sv);
    if kept.len() == 0 {
        return None;
    }
    let mut o: Vec<char> = Vec::new();
    let mut k: usize = 0;
    let ghost kv = pieces_view(kept@);
    while k < kept.len()
        invariant
            k <= kept@.len(),
            kv == pieces_view(kept@),
            o@ == join_segments(kv.subrange(0, k as int)),
        decreases kept@.len() - k,
    {
        let ghost t = kv.subrange(0, k + 1);
        assert(t.drop_last() =~= kv.subrange(0, k as int));
        assert(t.last() == kept@[k as int]@);
        if k > 0 {
            o.push('/');
        }
        crate::text::push_chars(&mut o, &kept[k]);
        proof {
            if k == 0 {
                assert(o@ =~= t[0]);
            } else {
                assert(o@ =~= join_segments(kv.subrange(0, k as int)) + "/"@ + t.last()) by {
                    reveal_strlit("/");
                }
            }
        }
        k = k + 1;
    }
    assert(kv.subrange(0, k as int) =~= kv);
    Some(o)
}

proof fn lemma_clean_segments_none(s: Seq<Seq<char>>, i: int)
    requires
        0 <= i < s.len(),
        s[i] == ".."@,
    ensures
        clean_segments(s) is None,
    decreases s.len(),
{
    if i < s.len() - 1 {
        assert(s.drop_last()[i] == s[i]);
        lemma_clean_segments_none(s.drop_last(), i);
    }
}

/// A `GET`/`HEAD` for a local title file: the data-relative path to serve;
/// `None` when the request is not for one (or its path is unsafe).
pub fn try_handle_http_request(method: &str, path: &str) -> (r: Option<StaticFileRequest>)
    ensures
        match r {
            Some(x) => (method@ == "GET"@ || method@ == "HEAD"@) && x.is_head == (method@ == "HEAD"@)
                && (match local_relative_path(split_query(path@).0) {
                Some(rel) => safe_relative_path(rel) == Some(x.relative_path@),
                None => false,
            }),
            None => !(method@ == "GET"@ || method@ == "HEAD"@) || match local_relative_path(
                split_query(path@).0,
            ) {
                Some(rel) => safe_relative_path(rel) is None,
                None => true,
            },
        },
{
    let m = str_chars(method);
    let is_head = eq_lit(&m, "HEAD");
    if !eq_lit(&m, "GET") && !is_head {
        return None;
    }
    let p = str_chars(path);
    let n = p.len();
    let clean = match find_char(&p, '?') {
        Some(i) => slice_range(&p, 0, i),
        None => slice_range(&p, 0, n),
    };
    assert(clean@ =~= split_query(path@).0);
    let rel = match local_relative_path_exec(&clean) {
        Some(r) => r,
        None => return None,
    };
    match safe_relative_path_exec(&rel) {
        Some(x) => Some(StaticFileRequest { relative_path: chars_to_string(&x), is_head }),
        None => None,
    }
}

} // verus!
