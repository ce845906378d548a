//! Startup decisions shared by the binaries: where data lives, which game is
//! served, which identity source is used, and what the process environment gets.
use vstd::prelude::*;
use crate::common::app_env::{datasource_name, environment_name, trimmed_nonempty, AppEnv, Datasource};
use crate::msgsystem::wire::str_to_string;
use crate::text::{chars_to_string, str_chars, trim, trim_vec};

verus! {

broadcast use vstd::string::group_string_axioms;

/// Options for starting the emulator.
#[derive(Debug, Clone)]
pub struct BootOptions {
    /// Overrides the data directory next to the executable.
    pub data_dir: Option<String>,
    /// Game id; overrides the env file's `game` when set.
    pub game_id: Option<String>,
    /// The headless env file; the desktop build has none.
    pub env: Option<AppEnv>,
}

/// Where personas come from.
#[derive(Debug, Clone, Copy, PartialEq, Eq, Structural)]
pub enum IdentitySource {
    /// Local JSON personas (and the persisted sessions).
    JsonPersonas,
    /// The MySQL identity store of the env file.
    Mysql,
}

/// What startup does.
#[derive(Debug, Clone)]
pub struct BootPlan {
    /// Data directory override, if any.
    pub data_dir: Option<String>,
    /// Game to select, if any.
    pub game_id: Option<String>,
    pub identity: IdentitySource,
    /// The env file's identity policy is reported (headless only).
    pub log_identity_policy: bool,
}

pub open spec fn opt_chars(v: Option<String>) -> Option<Seq<char>> {
    match v {
        Some(s) => Some(s@),
        None => None,
    }
}

/// The data directory: the option's, else the env file's.
pub open spec fn boot_data_dir(o: BootOptions) -> Option<Seq<char>> {
    match o.data_dir {
        Some(d) => Some(d@),
        None => match o.env {
            Some(e) => opt_chars(e.data_dir),
            None => None,
        },
    }
}

/// The game: the option's, trimmed, when not blank; else the env file's, likewise.
pub open spec fn boot_game(o: BootOptions) -> Option<Seq<char>> {
    match trimmed_nonempty(opt_chars(o.game_id)) {
        Some(g) => Some(g),
        None => match o.env {
            Some(e) => trimmed_nonempty(Some(e.game@)),
            None => None,
        },
    }
}

pub open spec fn boot_identity(o: BootOptions) -> IdentitySource {
    match o.env {
        Some(e) => if e.datasource == Datasource::Mysql {
            IdentitySource::Mysql
        } else {
            IdentitySource::JsonPersonas
        },
        None => IdentitySource::JsonPersonas,
    }
}

fn trimmed_opt(v: &Option<String>) -> (r: Option<String>)
    ensures
        opt_chars(r) == trimmed_nonempty(opt_chars(*v)),
{
    match v {
        Some(s) => {
            let t = trim_vec(&str_chars(s.as_str()));
            if t.len() == 0 {
                None
            } else {
                Some(chars_to_string(&t))
            }
        },
        None => None,
    }
}

/// What startup does with `opts` (see `boot_data_dir`, `boot_game`, `boot_identity`).
pub fn boot_plan(opts: &BootOptions) -> (p: BootPlan)
    ensures
        opt_chars(p.data_dir) == boot_data_dir(*opts),
        opt_chars(p.game_id) == boot_game(*opts),
        p.identity == boot_identity(*opts),
        p.log_identity_policy == opts.env is Some,
{
    let data_dir = match &opts.data_dir {
        Some(d) => Some(d.clone()),
        None => match &opts.env {
            Some(e) => match &e.data_dir {
                Some(d) => Some(d.clone()),
                None => None,
            },
            None => None,
        },
    };
    let game_id = match trimmed_opt(&opts.game_id) {
        Some(g) => Some(g),
        None => match &opts.env {
            Some(e) => trimmed_opt(&Some(e.game.clone())),
            None => None,
        },
    };
    let identity = match &opts.env {
        Some(e) => match e.datasource {
            Datasource::Mysql => IdentitySource::Mysql,
            Datasource::Json => IdentitySource::JsonPersonas,
        },
        None => IdentitySource::JsonPersonas,
    };
    BootPlan { data_dir, game_id, identity, log_identity_policy: opts.env.is_some() }
}

/// The listen address: the command line's, else the env file's (the first
/// given is the one used), unless blank; else `0.0.0.0`.
pub open spec fn listen_host(arg: Option<Seq<char>>, env: Option<Seq<char>>) -> Seq<char> {
    let chosen = match arg {
        Some(a) => Some(a),
        None => env,
    };
    match chosen {
        Some(h) => if trim(h).len() > 0 {
            h
        } else {
            "0.0.0.0"@
        },
        None => "0.0.0.0"@,
    }
}

pub fn resolve_listen_host(arg: Option<&str>, env: Option<&str>) -> (h: String)
    ensures
        h@ == listen_host(
            match arg {
                Some(a) => Some(a@),
                None => None,
            },
            match env {
                Some(e) => Some(e@),
                None => None,
            },
        ),
{
    let chosen = match arg {
        Some(a) => Some(a),
        None => env,
    };
    match chosen {
        Some(h) => if trim_vec(&str_chars(h)).len() > 0 {
            str_to_string(h)
        } else {
            str_to_string("0.0.0.0")
        },
        None => str_to_string("0.0.0.0"),
    }
}

/// Which data directory is used.
#[derive(Debug, Clone, PartialEq, Eq)]
pub enum DataDirChoice {
    /// The directory set at startup.
    Override,
    /// `REFRACTED_DATA_DIR`, trimmed.
    FromEnv(String),
    /// `data` next to the executable.
    BesideExecutable,
    /// `data` under the working directory.
    Relative,
}

/// The data directory: the startup override, else `REFRACTED_DATA_DIR` when
/// not blank, else `data` beside the executable when its directory is known,
/// else `data`.
pub fn app_data_dir_choice(override_set: bool, env_value: Option<&str>, exe_dir_known: bool) -> (c: DataDirChoice)
    ensures
        override_set ==> c == DataDirChoice::Override,
        !override_set && (env_value matches Some(v) && trim(v@).len() > 0) ==> (c matches DataDirChoice::FromEnv(d)
            && d@ == trim(env_value->Some_0@)),
        !override_set && !(env_value matches Some(v) && trim(v@).len() > 0) ==> c == if exe_dir_known {
            DataDirChoice::BesideExecutable
        } else {
            DataDirChoice::Relative
        },
{
    if override_set {
        return DataDirChoice::Override;
    }
    match env_value {
        Some(v) => {
            let t = trim_vec(&str_chars(v));
            if t.len() > 0 {
                return DataDirChoice::FromEnv(chars_to_string(&t));
            }
        },
        None => {},
    }
    if exe_dir_known {
        DataDirChoice::BesideExecutable
    } else {
        DataDirChoice::Relative
    }
}

/// The process variables an env file sets, in order: the game, environment
/// and datasource, the data directory when given, and `RUST_LOG` from the log
/// level unless it is set already.
pub open spec fn process_vars_of(e: AppEnv, rust_log_set: bool) -> Seq<(Seq<char>, Seq<char>)> {
    seq![
        ("REFRACTED_GAME"@, e.game@),
        ("REFRACTED_ENVIRONMENT"@, environment_name(e.environment)),
        ("REFRACTED_DATASOURCE"@, datasource_name(e.datasource)),
    ] + match e.data_dir {
        Some(d) => seq![("REFRACTED_DATA_DIR"@, d@)],
        None => Seq::empty(),
    } + match e.log_level {
        Some(l) => if rust_log_set {
            Seq::empty()
        } else {
            seq![("RUST_LOG"@, l@)]
        },
        None => Seq::empty(),
    }
}

pub open spec fn vars_view(v: Seq<(String, String)>) -> Seq<(Seq<char>, Seq<char>)> {
    v.map_values(|x: (String, String)| (x.0@, x.1@))
}

impl AppEnv {
    /// The process variables to set (see `process_vars_of`).
    pub fn process_vars(&self, rust_log_set: bool) -> (v: Vec<(String, String)>)
        ensures
            vars_view(v@) == process_vars_of(*self, rust_log_set),
    {
        let mut v: Vec<(String, String)> = Vec::new();
        v.push((str_to_string("REFRACTED_GAME"), self.game.clone()));
        v.push((str_to_string("REFRACTED_ENVIRONMENT"), str_to_string(self.environment.as_str())));
        v.push((str_to_string("REFRACTED_DATASOURCE"), str_to_string(self.datasource.as_str())));
        let ghost base = vars_view(v@);
        match &self.data_dir {
            Some(d) => v.push((str_to_string("REFRACTED_DATA_DIR"), d.clone())),
            None => {},
        }
        let ghost mid = vars_view(v@);
        match &self.log_level {
            Some(l) => if !rust_log_set {
                v.push((str_to_string("RUST_LOG"), l.clone()));
            },
            None => {},
        }
        assert(vars_view(v@) =~= process_vars_of(*self, rust_log_set));
        v
    }
}

} // verus!
