//! What the shell front end is served besides game data: the content type of a
//! static file, the UI theme preference, and the Prism version string.
use vstd::prelude::*;
use vstd::string::StringSliceAdditionalSpecFns;
use vstd::utf8::{decode_utf8, valid_utf8};
use crate::cnc::routes::{split_char, split_char_exec, pieces_view};
use crate::json::{as_str, doc_str, json_doc_of, json_get, parse_json_body};
use crate::msgsystem::wire::{str_to_string, utf8_to_str};
use crate::text::{
    chars_eq, chars_to_string, eq_lit, last_index_of, lower, lower_vec, rfind_char, slice_range, str_chars, trim,
    trim_vec,
};

verus! {

broadcast use vstd::string::group_string_axioms;

// ---------------------------------------------------------------------------
// Content types
// ---------------------------------------------------------------------------
/// The file name of a `/`-separated path: its last segment that is neither
/// empty nor `.`; none when that segment is `..` or there is none.
pub open spec fn file_name(segs: Seq<Seq<char>>) -> Option<Seq<char>>
    decreases segs.len(),
{
    if segs.len() == 0 {
        None
    } else if segs.last().len() == 0 || segs.last() == "."@ {
        file_name(segs.drop_last())
    } else if segs.last() == ".."@ {
        None
    } else {
        Some(segs.last())
    }
}

/// `Path::extension`: what follows the last `.` of the file name, unless the
/// name has no `.` or only a leading one.
pub open spec fn extension(path: Seq<char>) -> Option<Seq<char>> {
    match file_name(split_char(path, '/')) {
        Some(n) => {
            let i = last_index_of(n, '.');
            if i <= 0 {
                None
            } else {
                Some(n.subrange(i + 1, n.len() as int))
            }
        },
        None => None,
    }
}

/// The content type served for an extension (ASCII case ignored).
pub open spec fn content_type_of(ext: Seq<char>) -> Seq<char> {
    let e = lower(ext);
    if e == "html"@ || e == "htm"@ {
        "text/html"@
    } else if e == "js"@ {
        "text/javascript"@
    } else if e == "css"@ {
        "text/css"@
    } else if e == "json"@ {
        "application/json"@
    } else if e == "png"@ {
        "image/png"@
    } else if e == "jpg"@ || e == "jpeg"@ {
        "image/jpeg"@
    } else if e == "gif"@ {
        "image/gif"@
    } else if e == "svg"@ {
        "image/svg+xml"@
    } else if e == "ico"@ {
        "image/x-icon"@
    } else if e == "woff"@ {
        "application/font-woff"@
    } else if e == "woff2"@ {
        "font/woff2"@
    } else if e == "ttf"@ {
        "application/x-font-ttf"@
    } else if e == "otf"@ {
        "application/x-font-opentype"@
    } else if e == "cfg"@ {
        "text/plain; charset=utf-8"@
    } else {
        "application/octet-stream"@
    }
}

fn content_type_of_exec(ext: &Vec<char>) -> (t: &'static str)
    ensures
        t@ == content_type_of(ext@),
{
    let e = lower_vec(ext);
    if eq_lit(&e, "html") || eq_lit(&e, "htm") {
        "text/html"
    } else if eq_lit(&e, "js") {
        "text/javascript"
    } else if eq_lit(&e, "css") {
        "text/css"
    } else if eq_lit(&e, "json") {
        "application/json"
    } else if eq_lit(&e, "png") {
        "image/png"
    } else if eq_lit(&e, "jpg") || eq_lit(&e, "jpeg") {
        "image/jpeg"
    } else if eq_lit(&e, "gif") {
        "image/gif"
    } else if eq_lit(&e, "svg") {
        "image/svg+xml"
    } else if eq_lit(&e, "ico") {
        "image/x-icon"
    } else if eq_lit(&e, "woff") {
        "application/font-woff"
    } else if eq_lit(&e, "woff2") {
        "font/woff2"
    } else if eq_lit(&e, "ttf") {
        "application/x-font-ttf"
    } else if eq_lit(&e, "otf") {
        "application/x-font-opentype"
    } else if eq_lit(&e, "cfg") {
        "text/plain; charset=utf-8"
    } else {
        "application/octet-stream"
    }
}

fn file_name_index(segs: &Vec<Vec<char>>) -> (r: Option<usize>)
    ensures
        match r {
            Some(k) => k < segs@.len() && file_name(pieces_view(segs@)) == Some(segs@[k as int]@),
            None => file_name(pieces_view(segs@)) is None,
        },
{
    let ghost ss = pieces_view(segs@);
    let mut i: usize = segs.len();
    assert(ss.subrange(0, i as int) =~= ss);
    while i > 0
        invariant
            i <= ss.len(),
            ss == pieces_view(segs@),
            file_name(ss) == file_name(ss.subrange(0, i as int)),
        decreases i,
    {
        let ghost t = ss.subrange(0, i as int);
        assert(t.drop_last() =~= ss.subrange(0, i - 1));
        assert(t.last() == segs@[i - 1]@);
        let s = &segs[i - 1];
        if s.len() == 0 || eq_lit(s, ".") {
            i = i - 1;
        } else if eq_lit(s, "..") {
            return None;
        } else {
            return Some(i - 1);
        }
    }
    None
}

/// The content type of the static file at `path` (a `/`-separated relative
/// path); without an extension, `application/octet-stream`.
pub fn content_type_for(path: &str) -> (t: &'static str)
    ensures
        t@ == content_type_of(
            match extension(path@) {
                Some(e) => e,
                None => Seq::empty(),
            },
        ),
{
    let segs = split_char_exec(&str_chars(path), '/');
    let ext: Vec<char> = match file_name_index(&segs) {
        None => Vec::new(),
        Some(k) => {
            let n = &segs[k];
            match rfind_char(n, '.') {
                Some(j) => if j == 0 || j >= n.len() {
                    Vec::new()
                } else {
                    slice_range(n, j + 1, n.len())
                },
                None => Vec::new(),
            }
        },
    };
    content_type_of_exec(&ext)
}

// ---------------------------------------------------------------------------
// UI theme
// ---------------------------------------------------------------------------
/// A theme name as the shell stores it: `classic` for `classic`, `cnc-alpha`
/// or `alpha` (trimmed, ASCII case ignored), else `aurora`.
pub open spec fn shell_theme(raw: Seq<char>) -> Seq<char> {
    let t = lower(trim(raw));
    if t == "classic"@ || t == "cnc-alpha"@ || t == "alpha"@ {
        "classic"@
    } else {
        "aurora"@
    }
}

pub fn normalize_shell_theme_id(raw: &str) -> (t: &'static str)
    ensures
        t@ == shell_theme(raw@),
{
    let t = lower_vec(&trim_vec(&str_chars(raw)));
    if eq_lit(&t, "classic") || eq_lit(&t, "cnc-alpha") || eq_lit(&t, "alpha") {
        "classic"
    } else {
        "aurora"
    }
}

/// A theme preference as sent or stored.
#[derive(Debug, Clone)]
pub enum ThemeInput {
    /// A JSON object: its `theme` and `defaultTheme` members when strings.
    Json { theme: Option<String>, default_theme: Option<String> },
    /// Plain UTF-8 text.
    Text(String),
    /// Neither JSON nor UTF-8 (or nothing stored).
    Unreadable,
}

/// `(theme, defaultTheme)` of a JSON preference: each normalized; the theme
/// `aurora` when missing, the default the theme when missing.
pub open spec fn json_theme_prefs(theme: Option<Seq<char>>, default_theme: Option<Seq<char>>) -> (Seq<char>, Seq<char>) {
    let t = match theme {
        Some(x) => shell_theme(x),
        None => "aurora"@,
    };
    (
        t,
        match default_theme {
            Some(x) => shell_theme(x),
            None => t,
        },
    )
}

/// `(theme, defaultTheme)` of a plain-text preference: the trimmed text names
/// both, unless blank.
pub open spec fn text_theme_prefs(s: Seq<char>) -> (Seq<char>, Seq<char>) {
    if trim(s).len() == 0 {
        ("aurora"@, "aurora"@)
    } else {
        (shell_theme(trim(s)), shell_theme(trim(s)))
    }
}

/// `(theme, defaultTheme)`: see `json_theme_prefs` and `text_theme_prefs`;
/// both `aurora` when unreadable.
pub open spec fn theme_prefs(input: ThemeInput) -> (Seq<char>, Seq<char>) {
    match input {
        ThemeInput::Json { theme, default_theme } => json_theme_prefs(
            match theme {
                Some(x) => Some(x@),
                None => None,
            },
            match default_theme {
                Some(x) => Some(x@),
                None => None,
            },
        ),
        ThemeInput::Text(s) => text_theme_prefs(s@),
        ThemeInput::Unreadable => ("aurora"@, "aurora"@),
    }
}

/// The preference that a posted body gives: a JSON body's `theme` and
/// `defaultTheme` members when strings, else the bytes as UTF-8 text, else
/// unreadable.
pub open spec fn theme_prefs_of_bytes(b: Seq<u8>) -> (Seq<char>, Seq<char>) {
    match json_doc_of(b) {
        Some(d) => json_theme_prefs(as_str(json_get(d, "theme"@)), as_str(json_get(d, "defaultTheme"@))),
        None => if valid_utf8(b) {
            text_theme_prefs(decode_utf8(b))
        } else {
            ("aurora"@, "aurora"@)
        },
    }
}

/// The theme and default theme of a preference (see `theme_prefs`).
pub fn shell_theme_prefs(input: &ThemeInput) -> (r: (String, String))
    ensures
        (r.0@, r.1@) == theme_prefs(*input),
{
    match input {
        ThemeInput::Json { theme, default_theme } => {
            let t = match theme {
                Some(x) => normalize_shell_theme_id(x.as_str()),
                None => "aurora",
            };
            let d = match default_theme {
                Some(x) => normalize_shell_theme_id(x.as_str()),
                None => t,
            };
            (str_to_string(t), str_to_string(d))
        },
        ThemeInput::Text(s) => {
            let t = trim_vec(&str_chars(s.as_str()));
            if t.len() == 0 {
                (str_to_string("aurora"), str_to_string("aurora"))
            } else {
                let ts = chars_to_string(&t);
                let n = normalize_shell_theme_id(ts.as_str());
                (str_to_string(n), str_to_string(n))
            }
        },
        ThemeInput::Unreadable => (str_to_string("aurora"), str_to_string("aurora")),
    }
}

/// The theme and default theme of a posted body (see `theme_prefs_of_bytes`).
pub fn shell_theme_of_bytes(body: &[u8]) -> (r: (String, String))
    ensures
        (r.0@, r.1@) == theme_prefs_of_bytes(body@),
{
    let input = match parse_json_body(body) {
        Some(d) => ThemeInput::Json { theme: doc_str(&d, "theme"), default_theme: doc_str(&d, "defaultTheme") },
        None => match utf8_to_str(body) {
            Some(t) => ThemeInput::Text(str_to_string(t)),
            None => ThemeInput::Unreadable,
        },
    };
    shell_theme_prefs(&input)
}

// ---------------------------------------------------------------------------
// Prism version
// ---------------------------------------------------------------------------
/// The bytes of `b` with each `ESC [` sequence (up to and including its first
/// ASCII letter) removed, each remaining byte read as the character of that code.
pub open spec fn ansi_stripped(b: Seq<u8>) -> Seq<char>
    decreases b.len(),
{
    if b.len() == 0 {
        Seq::empty()
    } else if b[0] == 0x1b && b.len() > 1 && b[1] == 91 {
        proof {
            lemma_skip_csi_len(b.skip(2));
        }
        ansi_stripped(skip_csi(b.skip(2)))
    } else {
        seq![b[0] as char] + ansi_stripped(b.skip(1))
    }
}

pub open spec fn ascii_letter(c: u8) -> bool {
    (65 <= c <= 90) || (97 <= c <= 122)
}

/// What follows the first ASCII letter of `b` (nothing when it has none).
pub open spec fn skip_csi(b: Seq<u8>) -> Seq<u8>
    decreases b.len(),
{
    if b.len() == 0 {
        b
    } else if ascii_letter(b[0]) {
        b.skip(1)
    } else {
        skip_csi(b.skip(1))
    }
}

pub proof fn lemma_skip_csi_len(b: Seq<u8>)
    ensures
        skip_csi(b).len() <= b.len(),
        exists|k: int| 0 <= k <= b.len() && skip_csi(b) == b.skip(k),
    decreases b.len(),
{
    if b.len() == 0 {
        assert(b.skip(0) =~= b);
    } else if ascii_letter(b[0]) {
    } else {
        lemma_skip_csi_len(b.skip(1));
        let k = choose|k: int| 0 <= k <= b.skip(1).len() && skip_csi(b.skip(1)) == b.skip(1).skip(k);
        assert(b.skip(1).skip(k) =~= b.skip(k + 1));
    }
}

/// `s` with its terminal escape sequences removed (a rough filter: the text is
/// read byte by byte).
pub fn strip_ansi_approx(s: &str) -> (r: String)
    ensures
        r@ == ansi_stripped(s.spec_bytes()),
{
    let b = s.as_bytes();
    let ghost bs = b@;
    let mut out: Vec<char> = Vec::new();
    let mut i: usize = 0;
    assert(bs.skip(0) =~= bs);
    while i < b.len()
        invariant
            i <= bs.len(),
            bs == b@,
            out@ + ansi_stripped(bs.skip(i as int)) == ansi_stripped(bs),
        decreases bs.len() - i,
    {
        let ghost rest = bs.skip(i as int);
        if b[i] == 0x1b && i + 1 < b.len() && b[i + 1] == 91 {
            assert(rest[0] == 0x1b && rest[1] == 91);
            let ghost after = rest.skip(2);
            assert(after =~= bs.skip(i + 2));
            let mut j: usize = i + 2;
            while j < b.len() && !((65 <= b[j] && b[j] <= 90) || (97 <= b[j] && b[j] <= 122))
                invariant
                    i + 2 <= j <= bs.len(),
                    bs == b@,
                    skip_csi(after) == skip_csi(bs.skip(j as int)),
                    after == bs.skip(i + 2),
                decreases bs.len() - j,
            {
                assert(bs.skip(j as int).skip(1) =~= bs.skip(j + 1));
                j = j + 1;
            }
            if j < b.len() {
                assert(bs.skip(j as int).skip(1) =~= bs.skip(j + 1));
                j = j + 1;
            } else {
                assert(bs.skip(j as int) =~= Seq::<u8>::empty());
                assert(skip_csi(bs.skip(j as int)) == bs.skip(j as int));
            }
            assert(skip_csi(after) == bs.skip(j as int));
            i = j;
        } else {
            assert(rest.skip(1) =~= bs.skip(i + 1));
            let c = b[i] as char;
            assert(out@.push(c) + ansi_stripped(bs.skip(i + 1)) =~= out@ + ansi_stripped(rest));
            out.push(c);
            i = i + 1;
        }
    }
    assert(ansi_stripped(bs.skip(i as int)) =~= Seq::<char>::empty());
    assert(out@ + Seq::<char>::empty() =~= out@);
    chars_to_string(&out)
}

/// `str::lines`: split at `\n` (no empty last line after a final `\n`), one
/// trailing `\r` cut from each line.
pub open spec fn text_lines(s: Seq<char>) -> Seq<Seq<char>> {
    let pieces = split_char(s, '\n');
    let ps = if s.len() > 0 && s.last() == '\n' {
        pieces.drop_last()
    } else if s.len() == 0 {
        Seq::empty()
    } else {
        pieces
    };
    ps.map_values(|l: Seq<char>| if l.len() > 0 && l.last() == '\r' {
        l.drop_last()
    } else {
        l
    })
}

fn cr_cut(l: &Vec<char>) -> (r: Vec<char>)
    ensures
        r@ == (if l@.len() > 0 && l@.last() == '\r' {
            l@.drop_last()
        } else {
            l@
        }),
{
    if l.len() > 0 && l[l.len() - 1] == '\r' {
        let r = slice_range(l, 0, l.len() - 1);
        assert(r@ =~= l@.drop_last());
        r
    } else {
        slice_range(l, 0, l.len())
    }
}

pub open spec fn lines_view(v: Seq<Vec<char>>) -> Seq<Seq<char>> {
    v.map_values(|x: Vec<char>| x@)
}

fn text_lines_exec(s: &str) -> (v: Vec<Vec<char>>)
    ensures
        lines_view(v@) == text_lines(s@),
{
    let c = str_chars(s);
    let pieces = split_char_exec(&c, '\n');
    let ghost ps0 = pieces_view(pieces@);
    let n: usize = if c.len() == 0 {
        0
    } else if c[c.len() - 1] == '\n' {
        proof {
            crate::cnc::routes::lemma_split_char_nonempty(c@, '\n');
        }
        pieces.len() - 1
    } else {
        pieces.len()
    };
    let ghost ps = if c@.len() > 0 && c@.last() == '\n' {
        ps0.drop_last()
    } else if c@.len() == 0 {
        Seq::empty()
    } else {
        ps0
    };
    assert(n == ps.len());
    let mut v: Vec<Vec<char>> = Vec::new();
    let mut i: usize = 0;
    while i < n
        invariant
            n == ps.len(),
            n <= pieces@.len(),
            ps0 == pieces_view(pieces@),
            forall|k: int| 0 <= k < n ==> ps[k] == ps0[k],
            i <= n,
            lines_view(v@) == ps.subrange(0, i as int).map_values(|l: Seq<char>| if l.len() > 0 && l.last() == '\r' {
                l.drop_last()
            } else {
                l
            }),
        decreases n - i,
    {
        let line = cr_cut(&pieces[i]);
        let ghost before = lines_view(v@);
        let ghost lv = line@;
        v.push(line);
        assert(lines_view(v@) =~= before.push(lv));
        assert(ps.subrange(0, i + 1).map_values(|l: Seq<char>| if l.len() > 0 && l.last() == '\r' {
            l.drop_last()
        } else {
            l
        }) =~= ps.subrange(0, i as int).map_values(|l: Seq<char>| if l.len() > 0 && l.last() == '\r' {
            l.drop_last()
        } else {
            l
        }).push(lv));
        i = i + 1;
    }
    assert(ps.subrange(0, n as int) =~= ps);
    v
}

/// The version in a Prism version file: its first line, trimmed, when not blank.
pub open spec fn version_file_text(raw: Seq<char>) -> Option<Seq<char>> {
    let ls = text_lines(raw);
    if ls.len() > 0 && trim(ls[0]).len() > 0 {
        Some(trim(ls[0]))
    } else {
        None
    }
}

pub fn prism_version_from_file_text(raw: &str) -> (r: Option<String>)
    ensures
        match r {
            Some(v) => version_file_text(raw@) == Some(v@),
            None => version_file_text(raw@) is None,
        },
{
    let ls = text_lines_exec(raw);
    if ls.len() == 0 {
        return None;
    }
    let t = trim_vec(&ls[0]);
    if t.len() == 0 {
        None
    } else {
        Some(chars_to_string(&t))
    }
}

/// The version that a Prism log line announces: after terminal escapes are
/// removed, a line reading `Version:` and then some text.
pub open spec fn version_in_line(l: Seq<char>) -> Option<Seq<char>> {
    let bare = trim(ansi_stripped(vstd::utf8::encode_utf8(trim(l))));
    let p = "Version:"@;
    if p.len() <= bare.len() && bare.subrange(0, p.len() as int) == p && trim(bare.skip(p.len() as int)).len() > 0 {
        Some(trim(bare.skip(p.len() as int)))
    } else {
        None
    }
}

/// The first version that a line of `ls` announces.
pub open spec fn version_in_lines(ls: Seq<Seq<char>>) -> Option<Seq<char>>
    decreases ls.len(),
{
    if ls.len() == 0 {
        None
    } else {
        match version_in_line(ls[0]) {
            Some(v) => Some(v),
            None => version_in_lines(ls.drop_first()),
        }
    }
}

fn version_in_line_exec(l: &Vec<char>) -> (r: Option<String>)
    ensures
        match r {
            Some(v) => version_in_line(l@) == Some(v@),
            None => version_in_line(l@) is None,
        },
{
    let t = chars_to_string(&trim_vec(l));
    let stripped = strip_ansi_approx(t.as_str());
    let bare = trim_vec(&str_chars(stripped.as_str()));
    let p = str_chars("Version:");
    if crate::text::starts_with(&bare, &p) {
        let rest = trim_vec(&slice_range(&bare, p.len(), bare.len()));
        assert(bare@.subrange(p@.len() as int, bare@.len() as int) =~= bare@.skip(p@.len() as int));
        if rest.len() > 0 {
            return Some(chars_to_string(&rest));
        }
    }
    None
}

/// The version that a Prism log announces (see `version_in_line`).
pub fn prism_version_from_log_text(raw: &str) -> (r: Option<String>)
    ensures
        match r {
            Some(v) => version_in_lines(text_lines(raw@)) == Some(v@),
            None => version_in_lines(text_lines(raw@)) is None,
        },
{
    let ls = text_lines_exec(raw);
    let ghost lv = lines_view(ls@);
    let mut i: usize = 0;
    assert(lv.skip(0) =~= lv);
    while i < ls.len()
        invariant
            i <= ls@.len(),
            lv == lines_view(ls@),
            lv == text_lines(raw@),
            version_in_lines(lv) == version_in_lines(lv.skip(i as int)),
        decreases ls@.len() - i,
    {
        let ghost t = lv.skip(i as int);
        assert(t[0] == ls@[i as int]@);
        assert(t.drop_first() =~= lv.skip(i + 1));
        match version_in_line_exec(&ls[i]) {
            Some(v) => return Some(v),
            None => {},
        }
        i = i + 1;
    }
    None
}

/// The Prism version named by the environment: the value trimmed, when not blank.
pub fn prism_version_from_env(value: &str) -> (r: Option<String>)
    ensures
        match r {
            Some(v) => trim(value@).len() > 0 && v@ == trim(value@),
            None => trim(value@).len() == 0,
        },
{
    let t = trim_vec(&str_chars(value));
    if t.len() == 0 {
        None
    } else {
        Some(chars_to_string(&t))
    }
}

} // verus!
