//! Headless launch configuration: the `refracted.env` key/value file and the
//! `-env` command-line forms.
use vstd::prelude::*;
use crate::text::{
    chars_eq, chars_to_string, eq_lit, first_index_of, last_index_of, lower, lower_vec,
    parse_int_in, parse_u16, push_chars, push_str, rfind_char, slice_range, str_chars, trim,
    trim_vec,
};

verus! {

broadcast use vstd::string::group_string_axioms;

pub const ENV_FILE_NAME: &'static str = "refracted.env";

pub const DEFAULT_ENV_CONTENTS: &'static str = "# what game\ngame=cnc\n# what environment ie dev, prod, staging\nenvironment=dev\n# what datasource ie json (localized testing only), mysql\ndatasource=json\n# mysql parameters\nhost=127.0.0.1\ndatabase=refracted\nuser=refracted\npass=\n";

#[derive(Debug, Clone, Copy, PartialEq, Eq, Structural)]
pub enum Environment {
    Dev,
    Staging,
    Prod,
}

/// What `Environment::parse` gives: case-insensitive, trimmed; anything unknown is dev.
pub open spec fn environment_of(raw: Seq<char>) -> Environment {
    let k = lower(trim(raw));
    if k == "prod"@ || k == "production"@ {
        Environment::Prod
    } else if k == "staging"@ || k == "stage"@ {
        Environment::Staging
    } else {
        Environment::Dev
    }
}

pub open spec fn environment_name(e: Environment) -> Seq<char> {
    match e {
        Environment::Dev => "dev"@,
        Environment::Staging => "staging"@,
        Environment::Prod => "prod"@,
    }
}

impl Environment {
    pub fn parse(raw: &str) -> (e: Self)
        ensures
            e == environment_of(raw@),
    {
        let k = lower_vec(&trim_vec(&str_chars(raw)));
        if eq_lit(&k, "prod") || eq_lit(&k, "production") {
            Environment::Prod
        } else if eq_lit(&k, "staging") || eq_lit(&k, "stage") {
            Environment::Staging
        } else {
            Environment::Dev
        }
    }

    pub fn as_str(self) -> (s: &'static str)
        ensures
            s@ == environment_name(self),
    {
        match self {
            Environment::Dev => "dev",
            Environment::Staging => "staging",
            Environment::Prod => "prod",
        }
    }
}

#[derive(Debug, Clone, Copy, PartialEq, Eq, Structural)]
pub enum Datasource {
    Json,
    Mysql,
}

/// What `Datasource::parse` gives: json (also empty, `file`, `local`) or mysql
/// (also `sql`), case-insensitive and trimmed; anything else is refused.
pub open spec fn datasource_of(raw: Seq<char>) -> Result<Datasource, Seq<char>> {
    let k = lower(trim(raw));
    if k == ""@ || k == "json"@ || k == "file"@ || k == "local"@ {
        Ok(Datasource::Json)
    } else if k == "mysql"@ || k == "sql"@ {
        Ok(Datasource::Mysql)
    } else {
        Err("unknown datasource '"@ + k + "' (expected json or mysql)"@)
    }
}

pub open spec fn datasource_name(d: Datasource) -> Seq<char> {
    match d {
        Datasource::Json => "json"@,
        Datasource::Mysql => "mysql"@,
    }
}

impl Datasource {
    pub fn parse(raw: &str) -> (r: Result<Self, String>)
        ensures
            match r {
                Ok(d) => datasource_of(raw@) == Ok::<Datasource, Seq<char>>(d),
                Err(m) => datasource_of(raw@) == Err::<Datasource, Seq<char>>(m@),
            },
    {
        proof {
            reveal_strlit("");
        }
        let k = lower_vec(&trim_vec(&str_chars(raw)));
        if k.len() == 0 || eq_lit(&k, "json") || eq_lit(&k, "file") || eq_lit(&k, "local") {
            proof {
                if k.len() == 0 {
                    assert(k@ =~= ""@);
                }
            }
            Ok(Datasource::Json)
        } else if eq_lit(&k, "mysql") || eq_lit(&k, "sql") {
            Ok(Datasource::Mysql)
        } else {
            let mut m: Vec<char> = Vec::new();
            push_str(&mut m, "unknown datasource '");
            push_chars(&mut m, &k);
            push_str(&mut m, "' (expected json or mysql)");
            Err(chars_to_string(&m))
        }
    }

    pub fn as_str(self) -> (s: &'static str)
        ensures
            s@ == datasource_name(self),
    {
        match self {
            Datasource::Json => "json",
            Datasource::Mysql => "mysql",
        }
    }
}

#[derive(Debug, Clone)]
pub struct MysqlParams {
    pub host: String,
    pub database: String,
    pub user: String,
    pub pass: String,
}

/// `host:port` split at the last `:`; without a usable port the whole value is the
/// host and the port is 3306 (bracketed IPv6 hosts keep 3306).
pub open spec fn host_port_of(h: Seq<char>) -> (Seq<char>, u16) {
    let i = last_index_of(h, ':');
    if i >= 0 {
        let host = h.subrange(0, i);
        let port = h.subrange(i + 1, h.len() as int);
        if host.len() > 0 && host[0] != '[' && parse_int_in(port, false, 0, 65535) is Some {
            (host, parse_int_in(port, false, 0, 65535).unwrap() as u16)
        } else {
            (h, 3306)
        }
    } else {
        (h, 3306)
    }
}

impl MysqlParams {
    pub fn host_port(&self) -> (r: (String, u16))
        ensures
            (r.0@, r.1) == host_port_of(self.host@),
    {
        let h = str_chars(self.host.as_str());
        let n = h.len();
        match rfind_char(&h, ':') {
            Some(i) => {
                if i > 0 && h[0] != '[' {
                    let port = slice_range(&h, i + 1, n);
                    match parse_u16(&port) {
                        Some(p) => {
                            let host = slice_range(&h, 0, i);
                            return (chars_to_string(&host), p);
                        },
                        None => {},
                    }
                }
                (chars_to_string(&h), 3306)
            },
            None => (chars_to_string(&h), 3306),
        }
    }
}

// ---------------------------------------------------------------------------
// The key/value file
// ---------------------------------------------------------------------------
/// `s` cut at each `\n` (the last piece may be empty).
pub open spec fn split_lines(s: Seq<char>) -> Seq<Seq<char>>
    decreases s.len(),
{
    if s.len() == 0 {
        seq![Seq::<char>::empty()]
    } else {
        let r = split_lines(s.drop_last());
        if s.last() == '\n' {
            r.push(Seq::<char>::empty())
        } else {
            r.update(r.len() - 1, r.last().push(s.last()))
        }
    }
}

proof fn lemma_split_lines_nonempty(s: Seq<char>)
    ensures
        split_lines(s).len() >= 1,
    decreases s.len(),
{
    if s.len() > 0 {
        lemma_split_lines_nonempty(s.drop_last());
    }
}

/// A value with one pair of matching outer quotes (`"` or `'`) removed.
pub open spec fn unquote(v: Seq<char>) -> Seq<char> {
    if v.len() >= 2 && ((v[0] == '"' && v.last() == '"') || (v[0] == '\'' && v.last() == '\'')) {
        v.subrange(1, v.len() - 1)
    } else {
        v
    }
}

/// One line of the file: blank lines, `#` comments, lines without `=` and lines
/// with an empty key give nothing; otherwise the lowercased trimmed key and the
/// trimmed, unquoted value.
pub open spec fn parse_line(raw: Seq<char>) -> Option<(Seq<char>, Seq<char>)> {
    let t = trim(raw);
    let i = first_index_of(t, '=');
    if t.len() == 0 || t[0] == '#' || i < 0 {
        None
    } else {
        let key = lower(trim(t.subrange(0, i)));
        if key.len() == 0 {
            None
        } else {
            Some((key, unquote(trim(t.subrange(i + 1, t.len() as int)))))
        }
    }
}

/// The entries of the given lines, in file order.
pub open spec fn env_entries(lines: Seq<Seq<char>>) -> Seq<(Seq<char>, Seq<char>)>
    decreases lines.len(),
{
    if lines.len() == 0 {
        Seq::empty()
    } else {
        let r = env_entries(lines.drop_last());
        match parse_line(lines.last()) {
            Some(e) => r.push(e),
            None => r,
        }
    }
}

/// The value of the last entry for `key`.
pub open spec fn lookup(entries: Seq<(Seq<char>, Seq<char>)>, key: Seq<char>) -> Option<Seq<char>>
    decreases entries.len(),
{
    if entries.len() == 0 {
        None
    } else if entries.last().0 == key {
        Some(entries.last().1)
    } else {
        lookup(entries.drop_last(), key)
    }
}

/// The value that `content` gives `key` (a later line wins).
pub open spec fn env_value(content: Seq<char>, key: Seq<char>) -> Option<Seq<char>> {
    lookup(env_entries(split_lines(content)), key)
}

pub open spec fn pairs_view(v: Seq<(Vec<char>, Vec<char>)>) -> Seq<(Seq<char>, Seq<char>)> {
    v.map_values(|p: (Vec<char>, Vec<char>)| (p.0@, p.1@))
}

fn unquote_exec(v: Vec<char>) -> (r: Vec<char>)
    ensures
        r@ == unquote(v@),
{
    let n = v.len();
    if n >= 2 && ((v[0] == '"' && v[n - 1] == '"') || (v[0] == '\'' && v[n - 1] == '\'')) {
        slice_range(&v, 1, n - 1)
    } else {
        v
    }
}

fn parse_line_exec(raw: &[char]) -> (r: Option<(Vec<char>, Vec<char>)>)
    ensures
        match r {
            Some(p) => parse_line(raw@) == Some((p.0@, p.1@)),
            None => parse_line(raw@) is None,
        },
{
    let t = trim_vec(raw);
    let n = t.len();
    if n == 0 || t[0] == '#' {
        return None;
    }
    match crate::text::find_char(&t, '=') {
        None => None,
        Some(i) => {
            let key = lower_vec(&trim_vec(&slice_range(&t, 0, i)));
            if key.len() == 0 {
                return None;
            }
            let value = unquote_exec(trim_vec(&slice_range(&t, i + 1, n)));
            Some((key, value))
        },
    }
}

/// The entries of `content`, in file order.
fn parse_env_map(content: &str) -> (r: Vec<(Vec<char>, Vec<char>)>)
    ensures
        pairs_view(r@) == env_entries(split_lines(content@)),
{
    let v = str_chars(content);
    let mut entries: Vec<(Vec<char>, Vec<char>)> = Vec::new();
    let mut cur: Vec<char> = Vec::new();
    let ghost mut done: Seq<Seq<char>> = Seq::empty();
    let mut i: usize = 0;
    while i < v.len()
        invariant
            i <= v@.len(),
            v@ == content@,
            split_lines(v@.subrange(0, i as int)) == done.push(cur@),
            pairs_view(entries@) == env_entries(done),
        decreases v@.len() - i,
    {
        let c = v[i];
        proof {
            let s = v@.subrange(0, i + 1);
            assert(s.drop_last() =~= v@.subrange(0, i as int));
            assert(s.last() == c);
            lemma_split_lines_nonempty(s.drop_last());
        }
        if c == '\n' {
            let line = parse_line_exec(&cur);
            proof {
                assert(done.push(cur@).drop_last() =~= done);
            }
            match line {
                Some(p) => {
                    entries.push(p);
                    assert(pairs_view(entries@) =~= env_entries(done.push(cur@)));
                },
                None => {},
            }
            proof {
                done = done.push(cur@);
            }
            cur = Vec::new();
            assert(split_lines(v@.subrange(0, i + 1)) =~= done.push(cur@));
        } else {
            cur.push(c);
            assert(split_lines(v@.subrange(0, i + 1)) =~= done.push(cur@));
        }
        i = i + 1;
    }
    let line = parse_line_exec(&cur);
    proof {
        assert(v@.subrange(0, v@.len() as int) =~= v@);
        assert(done.push(cur@).drop_last() =~= done);
    }
    match line {
        Some(p) => {
            entries.push(p);
            assert(pairs_view(entries@) =~= env_entries(done.push(cur@)));
        },
        None => {},
    }
    entries
}

/// The value of the last entry for `key`.
fn lookup_exec(entries: &Vec<(Vec<char>, Vec<char>)>, key: &str) -> (r: Option<Vec<char>>)
    ensures
        match r {
            Some(v) => lookup(pairs_view(entries@), key@) == Some(v@),
            None => lookup(pairs_view(entries@), key@) is None,
        },
{
    let k = str_chars(key);
    let mut i: usize = entries.len();
    assert(entries@.subrange(0, i as int) =~= entries@);
    while i > 0
        invariant
            i <= entries@.len(),
            k@ == key@,
            lookup(pairs_view(entries@), key@) == lookup(pairs_view(entries@.subrange(0, i as int)), key@),
        decreases i,
    {
        let ghost pre = pairs_view(entries@.subrange(0, i as int));
        assert(pre.drop_last() =~= pairs_view(entries@.subrange(0, i - 1)));
        if chars_eq(&entries[i - 1].0, &k) {
            return Some(entries[i - 1].1.clone());
        }
        i = i - 1;
    }
    None
}


/// A trimmed value, kept only when non-empty.
pub open spec fn trimmed_nonempty(v: Option<Seq<char>>) -> Option<Seq<char>> {
    match v {
        Some(s) => if trim(s).len() > 0 {
            Some(trim(s))
        } else {
            None
        },
        None => None,
    }
}

pub open spec fn or_default(v: Option<Seq<char>>, default: Seq<char>) -> Seq<char> {
    match v {
        Some(s) => s,
        None => default,
    }
}

pub open spec fn opt_view(v: Option<String>) -> Option<Seq<char>> {
    match v {
        Some(s) => Some(s@),
        None => None,
    }
}

/// Launch configuration read from the env file.
#[derive(Debug, Clone)]
pub struct AppEnv {
    pub path: String,
    pub game: String,
    pub environment: Environment,
    pub datasource: Datasource,
    pub mysql: MysqlParams,
    pub listen_host: Option<String>,
    pub data_dir: Option<String>,
    pub log_level: Option<String>,
}

fn trimmed_nonempty_exec(v: Option<Vec<char>>) -> (r: Option<Vec<char>>)
    ensures
        match r {
            Some(s) => trimmed_nonempty(match v {
                Some(x) => Some(x@),
                None => None,
            }) == Some(s@),
            None => trimmed_nonempty(match v {
                Some(x) => Some(x@),
                None => None,
            }) is None,
        },
{
    match v {
        Some(x) => {
            let t = trim_vec(&x);
            if t.len() > 0 {
                Some(t)
            } else {
                None
            }
        },
        None => None,
    }
}

fn opt_string(v: Option<Vec<char>>) -> (r: Option<String>)
    ensures
        opt_view(r) == match v {
            Some(x) => Some(x@),
            None => None::<Seq<char>>,
        },
{
    match v {
        Some(x) => Some(chars_to_string(&x)),
        None => None,
    }
}

fn value_or(v: Option<Vec<char>>, default: &str) -> (r: String)
    ensures
        r@ == or_default(
            match v {
                Some(x) => Some(x@),
                None => None,
            },
            default@,
        ),
{
    match v {
        Some(x) => chars_to_string(&x),
        None => chars_to_string(&str_chars(default)),
    }
}

/// Reads the env file `content` found at `path`. Unset or blank keys take their
/// defaults (`game=cnc`, dev, json, `host=127.0.0.1`, `database` and `user`
/// `refracted`, empty `pass`); the only error is an unknown datasource.
pub fn parse_app_env(path: String, content: &str) -> (r: Result<AppEnv, String>)
    ensures
        match r {
            Ok(e) => {
                &&& datasource_of(or_default(env_value(content@, "datasource"@), "json"@))
                    == Ok::<Datasource, Seq<char>>(e.datasource)
                &&& e.path@ == path@
                &&& e.game@ == or_default(trimmed_nonempty(env_value(content@, "game"@)), "cnc"@)
                &&& e.environment == environment_of(
                    or_default(env_value(content@, "environment"@), "dev"@),
                )
                &&& e.mysql.host@ == or_default(
                    trimmed_nonempty(env_value(content@, "host"@)),
                    "127.0.0.1"@,
                )
                &&& e.mysql.database@ == or_default(
                    trimmed_nonempty(env_value(content@, "database"@)),
                    "refracted"@,
                )
                &&& e.mysql.user@ == or_default(
                    trimmed_nonempty(env_value(content@, "user"@)),
                    "refracted"@,
                )
                &&& e.mysql.pass@ == or_default(env_value(content@, "pass"@), ""@)
                &&& opt_view(e.listen_host) == trimmed_nonempty(env_value(content@, "listen_host"@))
                &&& opt_view(e.data_dir) == trimmed_nonempty(env_value(content@, "data_dir"@))
                &&& opt_view(e.log_level) == trimmed_nonempty(env_value(content@, "log_level"@))
            },
            Err(m) => datasource_of(or_default(env_value(content@, "datasource"@), "json"@))
                == Err::<Datasource, Seq<char>>(m@),
        },
{
    let map = parse_env_map(content);
    let game = value_or(trimmed_nonempty_exec(lookup_exec(&map, "game")), "cnc");
    let env_raw = value_or(lookup_exec(&map, "environment"), "dev");
    let environment = Environment::parse(env_raw.as_str());
    let ds_raw = value_or(lookup_exec(&map, "datasource"), "json");
    let datasource = match Datasource::parse(ds_raw.as_str()) {
        Ok(d) => d,
        Err(m) => return Err(m),
    };
    let mysql = MysqlParams {
        host: value_or(trimmed_nonempty_exec(lookup_exec(&map, "host")), "127.0.0.1"),
        database: value_or(trimmed_nonempty_exec(lookup_exec(&map, "database")), "refracted"),
        user: value_or(trimmed_nonempty_exec(lookup_exec(&map, "user")), "refracted"),
        pass: value_or(lookup_exec(&map, "pass"), ""),
    };
    let listen_host = opt_string(trimmed_nonempty_exec(lookup_exec(&map, "listen_host")));
    let data_dir = opt_string(trimmed_nonempty_exec(lookup_exec(&map, "data_dir")));
    let log_level = opt_string(trimmed_nonempty_exec(lookup_exec(&map, "log_level")));
    Ok(AppEnv { path, game, environment, datasource, mysql, listen_host, data_dir, log_level })
}


// ---------------------------------------------------------------------------
// Command line
// ---------------------------------------------------------------------------
/// Whether `s` (what follows `-env`) reads as a path: `.`, `/`, `\` first, or a
/// drive letter's `:` as its second byte.
pub open spec fn looks_like_path(s: Seq<char>) -> bool {
    s.len() > 0 && (s[0] == '.' || s[0] == '/' || s[0] == '\\' || (s.len() >= 2 && (s[0] as u32)
        < 0x80 && s[1] == ':'))
}

pub open spec fn has_prefix(s: Seq<char>, p: Seq<char>) -> bool {
    p.len() <= s.len() && s.subrange(0, p.len() as int) == p
}

/// `-env`, `-Env` or `-ENV` followed by anything.
pub open spec fn env_prefixed(a: Seq<char>) -> bool {
    has_prefix(a, "-env"@) || has_prefix(a, "-Env"@) || has_prefix(a, "-ENV"@)
}

/// The arguments after the program name, with every `-env` form rewritten to
/// `--env PATH`.
pub open spec fn normalize_rest(args: Seq<Seq<char>>) -> Seq<Seq<char>>
    decreases args.len(),
{
    if args.len() == 0 {
        Seq::empty()
    } else {
        let a = args[0];
        if a == "-env"@ || a == "--env"@ || lower(a) == "/env"@ {
            if args.len() >= 2 {
                seq!["--env"@, args[1]] + normalize_rest(args.skip(2))
            } else {
                seq!["--env"@]
            }
        } else if has_prefix(a, "--env="@) {
            seq!["--env"@, a.skip(6)] + normalize_rest(args.skip(1))
        } else if env_prefixed(a) && a.len() > 4 && a[4] == '=' {
            seq!["--env"@, a.skip(5)] + normalize_rest(args.skip(1))
        } else if env_prefixed(a) && looks_like_path(a.skip(4)) {
            seq!["--env"@, a.skip(4)] + normalize_rest(args.skip(1))
        } else {
            seq![a] + normalize_rest(args.skip(1))
        }
    }
}

/// The whole command line: the program name stays first.
pub open spec fn normalize_args(args: Seq<Seq<char>>) -> Seq<Seq<char>> {
    if args.len() == 0 {
        Seq::empty()
    } else {
        seq![args[0]] + normalize_rest(args.skip(1))
    }
}

pub open spec fn strings_view(v: Seq<String>) -> Seq<Seq<char>> {
    v.map_values(|s: String| s@)
}

fn looks_like_path_exec(s: &[char]) -> (r: bool)
    ensures
        r == looks_like_path(s@),
{
    s.len() > 0 && (s[0] == '.' || s[0] == '/' || s[0] == '\\' || (s.len() >= 2 && (s[0] as u32)
        < 0x80 && s[1] == ':'))
}

fn has_prefix_exec(s: &[char], p: &str) -> (r: bool)
    ensures
        r == has_prefix(s@, p@),
{
    let pc = str_chars(p);
    crate::text::starts_with(s, &pc)
}

fn push_string(out: &mut Vec<String>, s: &[char])
    ensures
        strings_view(final(out)@) == strings_view(old(out)@).push(s@),
{
    out.push(chars_to_string(s));
    assert(strings_view(out@) =~= strings_view(old(out)@).push(s@));
}

/// Rewrites `-env PATH`, `--env PATH`, `/env PATH` (any case), `--env=PATH`,
/// `-env=PATH` and `-envPATH` (also `-Env`, `-ENV`) to `--env PATH`.
pub fn normalize_launch_args(args: Vec<String>) -> (out: Vec<String>)
    ensures
        strings_view(out@) == normalize_args(strings_view(args@)),
{
    let ghost av = strings_view(args@);
    let mut out: Vec<String> = Vec::new();
    if args.len() == 0 {
        assert(strings_view(out@) =~= normalize_args(av));
        return out;
    }
    let first = str_chars(args[0].as_str());
    push_string(&mut out, &first);
    let mut i: usize = 1;
    while i < args.len()
        invariant
            1 <= i <= args@.len(),
            av == strings_view(args@),
            strings_view(out@) + normalize_rest(av.skip(i as int)) == normalize_args(av),
        decreases args@.len() - i,
    {
        let a = str_chars(args[i].as_str());
        let ghost rest = av.skip(i as int);
        assert(rest[0] == a@);
        assert(rest.skip(1) =~= av.skip(i + 1));
        if eq_lit(&a, "-env") || eq_lit(&a, "--env") || eq_lit(&lower_vec(&a), "/env") {
            push_str_arg(&mut out, "--env");
            if i + 1 < args.len() {
                let p = str_chars(args[i + 1].as_str());
                assert(rest[1] == p@);
                assert(rest.skip(2) =~= av.skip(i + 2));
                push_string(&mut out, &p);
                assert(strings_view(out@) + normalize_rest(av.skip(i + 2)) =~= normalize_args(av));
                i = i + 2;
            } else {
                assert(av.skip(i + 1).len() == 0);
                assert(strings_view(out@) + normalize_rest(av.skip(i + 1)) =~= normalize_args(av));
                i = i + 1;
            }
        } else {
            let n = a.len();
            proof {
                reveal_strlit("-env");
                reveal_strlit("-Env");
                reveal_strlit("-ENV");
            }
            if has_prefix_exec(&a, "--env=") {
                proof {
                    reveal_strlit("--env=");
                }
                push_str_arg(&mut out, "--env");
                push_string(&mut out, &slice_range(&a, 6, n));
                assert(a@.subrange(6, n as int) =~= a@.skip(6));
            } else if (has_prefix_exec(&a, "-env") || has_prefix_exec(&a, "-Env")
                || has_prefix_exec(&a, "-ENV")) && n > 4 && a[4] == '=' {
                proof {
                    reveal_strlit("-env");
                    reveal_strlit("-Env");
                    reveal_strlit("-ENV");
                }
                push_str_arg(&mut out, "--env");
                push_string(&mut out, &slice_range(&a, 5, n));
                assert(a@.subrange(5, n as int) =~= a@.skip(5));
            } else if (has_prefix_exec(&a, "-env") || has_prefix_exec(&a, "-Env")
                || has_prefix_exec(&a, "-ENV")) && looks_like_path_exec(&slice_range(&a, 4, n)) {
                proof {
                    reveal_strlit("-env");
                    reveal_strlit("-Env");
                    reveal_strlit("-ENV");
                }
                push_str_arg(&mut out, "--env");
                push_string(&mut out, &slice_range(&a, 4, n));
                assert(a@.subrange(4, n as int) =~= a@.skip(4));
            } else {
                proof {
                    reveal_strlit("-env");
                    reveal_strlit("-Env");
                    reveal_strlit("-ENV");
                    if env_prefixed(a@) {
                        assert(a@.subrange(4, n as int) =~= a@.skip(4));
                    }
                }
                push_string(&mut out, &a);
            }
            assert(strings_view(out@) + normalize_rest(av.skip(i + 1)) =~= normalize_args(av));
            i = i + 1;
        }
    }
    assert(av.skip(i as int).len() == 0);
    assert(strings_view(out@) =~= normalize_args(av));
    out
}

fn push_str_arg(out: &mut Vec<String>, lit: &str)
    ensures
        strings_view(final(out)@) == strings_view(old(out)@).push(lit@),
{
    let c = str_chars(lit);
    push_string(out, &c);
}


} // verus!
