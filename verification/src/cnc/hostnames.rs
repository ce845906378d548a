//! Names a dedicated server goes by in the browser: the label taken from what
//! it reports, and what its peer address or this machine reads as.
use vstd::prelude::*;
use vstd::string::StringSliceAdditionalSpecFns;
use crate::cnc::dedicated_pool::{strip_leading, strip_leading_exec, strip_trailing, strip_trailing_exec};
use crate::msgsystem::wire::str_to_string;
use crate::text::{
    chars_to_string, contains_chars, contains_seq, eq_lit, find_char, first_index_of, lower, lower_vec, slice_range,
    str_chars, trim, trim_vec, upper, upper_vec,
};

verus! {

broadcast use vstd::string::group_string_axioms;

pub open spec fn has_prefix(s: Seq<char>, p: Seq<char>) -> bool {
    p.len() <= s.len() && s.subrange(0, p.len() as int) == p
}

pub open spec fn label_char(c: char) -> bool {
    ('a' <= c <= 'z') || c == '-' || c == '_'
}

/// A reported host name as a label: trimmed (also of NULs), without a `PCC/`
/// (or `pcc/`) prefix, cut at the first `.`, and upper-cased when it is only
/// lower-case letters, `-` and `_`.
pub open spec fn hostname_label(raw: Seq<char>) -> Seq<char> {
    label_case(cut_at_dot(without_pcc(strip_trailing(strip_leading(trim(raw), '\0'), '\0'))))
}

pub open spec fn without_pcc(s: Seq<char>) -> Seq<char> {
    if has_prefix(s, "PCC/"@) || has_prefix(s, "pcc/"@) {
        s.skip(4)
    } else {
        s
    }
}

pub open spec fn cut_at_dot(s: Seq<char>) -> Seq<char> {
    if first_index_of(s, '.') >= 0 {
        s.subrange(0, first_index_of(s, '.'))
    } else {
        s
    }
}

pub open spec fn all_label(s: Seq<char>) -> bool {
    forall|k: int| 0 <= k < s.len() ==> label_char(#[trigger] s[k])
}

pub open spec fn label_case(s: Seq<char>) -> Seq<char> {
    if all_label(s) {
        upper(s)
    } else {
        s
    }
}

fn all_label_chars(v: &Vec<char>) -> (b: bool)
    ensures
        b == all_label(v@),
{
    let mut i: usize = 0;
    while i < v.len()
        invariant
            i <= v@.len(),
            forall|k: int| 0 <= k < i ==> label_char(#[trigger] v@[k]),
        decreases v@.len() - i,
    {
        let c = v[i];
        if !(('a' <= c && c <= 'z') || c == '-' || c == '_') {
            assert(!label_char(v@[i as int]));
            return false;
        }
        i = i + 1;
    }
    true
}

/// The label of a reported host name (see `hostname_label`).
pub fn normalize_hostname_label(raw: &str) -> (s: String)
    ensures
        s@ == hostname_label(raw@),
{
    let t = strip_trailing_exec(strip_leading_exec(trim_vec(&str_chars(raw)), '\0'), '\0');
    let ghost s0 = t@;
    assert(s0 == strip_trailing(strip_leading(trim(raw@), '\0'), '\0'));
    proof {
        reveal_strlit("PCC/");
        reveal_strlit("pcc/");
    }
    let p1 = str_chars("PCC/");
    let p2 = str_chars("pcc/");
    assert(p1@.len() == 4 && p2@.len() == 4);
    let t = if crate::text::starts_with(&t, &p1) || crate::text::starts_with(&t, &p2) {
        let n = t.len();
        let r = slice_range(&t, p1.len(), n);
        assert(r@ =~= t@.skip(4));
        r
    } else {
        t
    };
    let ghost s1 = t@;
    assert(s1 == (if has_prefix(s0, "PCC/"@) || has_prefix(s0, "pcc/"@) {
        s0.skip(4)
    } else {
        s0
    }));
    let t = match find_char(&t, '.') {
        Some(i) => slice_range(&t, 0, i),
        None => t,
    };
    let ghost s2 = t@;
    assert(s2 == (if first_index_of(s1, '.') >= 0 {
        s1.subrange(0, first_index_of(s1, '.'))
    } else {
        s1
    }));
    if all_label_chars(&t) {
        chars_to_string(&upper_vec(&t))
    } else {
        chars_to_string(&t)
    }
}

/// A label can name a server: not blank, at most 64 bytes once trimmed, no
/// `@`, not the Blaze client name `RtsBlazeServer` (any ASCII case), not a
/// `CNCO` account name.
pub open spec fn server_like(s: Seq<char>) -> bool {
    let t = trim(s);
    &&& t.len() > 0
    &&& vstd::utf8::encode_utf8(t).len() <= 64
    &&& !contains_seq(t, "@"@)
    &&& lower(t) != lower("RtsBlazeServer"@)
    &&& !has_prefix(t, "CNCO"@)
}

pub fn looks_like_server_hostname(s: &str) -> (b: bool)
    ensures
        b == server_like(s@),
{
    let t = trim_vec(&str_chars(s));
    if t.len() == 0 {
        return false;
    }
    let ts = chars_to_string(&t);
    if ts.as_str().as_bytes().len() > 64 {
        return false;
    }
    if contains_chars(&t, &str_chars("@")) {
        return false;
    }
    if crate::text::chars_eq(&lower_vec(&t), &lower_vec(&str_chars("RtsBlazeServer"))) {
        return false;
    }
    !crate::text::starts_with(&t, &str_chars("CNCO"))
}

/// This machine's name as a label: trimmed, without trailing dots, in upper
/// case; `SERVER` when the environment names none.
pub open spec fn machine_label(raw: Option<Seq<char>>) -> Seq<char> {
    let s = match raw {
        Some(r) => r,
        None => "SERVER"@,
    };
    upper(strip_trailing(trim(s), '.'))
}

/// The label of this machine's name (`raw` is what the environment gives).
pub fn machine_hostname_label(raw: Option<&str>) -> (s: String)
    ensures
        s@ == machine_label(
            match raw {
                Some(r) => Some(r@),
                None => None,
            },
        ),
{
    let v = match raw {
        Some(r) => str_chars(r),
        None => str_chars("SERVER"),
    };
    chars_to_string(&upper_vec(&strip_trailing_exec(trim_vec(&v), '.')))
}

/// What a peer address reads as in the browser: its IP (`ip`, when the
/// address parses), or this machine's label for a loopback address.
pub open spec fn peer_display(ip: Option<Seq<char>>, machine: Seq<char>) -> Option<Seq<char>> {
    match ip {
        Some(i) => if i == "127.0.0.1"@ || i == "::1"@ {
            Some(machine)
        } else {
            Some(i)
        },
        None => None,
    }
}

pub fn peer_display_fallback(ip: Option<&str>, machine: &str) -> (r: Option<String>)
    ensures
        match r {
            Some(s) => peer_display(
                match ip {
                    Some(i) => Some(i@),
                    None => None,
                },
                machine@,
            ) == Some(s@),
            None => ip is None,
        },
{
    match ip {
        Some(i) => {
            let v = str_chars(i);
            if eq_lit(&v, "127.0.0.1") || eq_lit(&v, "::1") {
                Some(str_to_string(machine))
            } else {
                Some(str_to_string(i))
            }
        },
        None => None,
    }
}

} // verus!
