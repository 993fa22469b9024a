//! The command line of the CI runner, and where it looks for its configuration.
use vstd::prelude::*;
use vstd::string::*;
use crate::text::{join_path, path_join};

verus! {

/// The parsed command line.
#[derive(Debug)]
pub struct Cli {
    pub config: Option<String>,
    pub repo: Option<String>,
    pub jobs: Option<u16>,
    pub command: Command,
}

/// What the command line asks for.
#[derive(Debug)]
pub enum Command {
    Start,
    Status { repo: Option<String> },
    Cancel { sha: String, repo: Option<String> },
    CancelAll,
    Retry { repo: String, sha: String },
    Shutdown,
}

/// The directory of the per-user configuration: `$XDG_CONFIG_HOME/ci-local`, else
/// `$HOME/.config/ci-local`, else none.
pub open spec fn config_dir_spec(xdg_config_home: Option<Seq<char>>, home: Option<Seq<char>>) -> Option<Seq<char>> {
    match xdg_config_home {
        Some(x) => Some(path_join(x, "ci-local"@)),
        None => match home {
            Some(h) => Some(path_join(path_join(h, ".config"@), "ci-local"@)),
            None => None,
        },
    }
}

pub open spec fn opt_str_view(o: Option<&str>) -> Option<Seq<char>> {
    match o {
        Some(s) => Some(s@),
        None => None,
    }
}

/// The per-user configuration directory (see `config_dir_spec`).
pub fn config_dir(xdg_config_home: Option<&str>, home: Option<&str>) -> (r: Option<String>)
    ensures
        match r {
            Some(s) => config_dir_spec(opt_str_view(xdg_config_home), opt_str_view(home)) == Some(s@),
            None => config_dir_spec(opt_str_view(xdg_config_home), opt_str_view(home)) is None,
        },
{
    match xdg_config_home {
        Some(x) => Some(join_path(x, "ci-local")),
        None => match home {
            Some(h) => {
                let c = join_path(h, ".config");
                Some(join_path(c.as_str(), "ci-local"))
            },
            None => None,
        },
    }
}

/// The per-user configuration file inside `dir`.
pub fn global_config_path(dir: &str) -> (r: String)
    ensures
        r@ == path_join(dir@, "ci-local.toml"@),
{
    join_path(dir, "ci-local.toml")
}

impl Cli {
    /// The configuration file to use: the one given, else `ci-local.toml` in the
    /// working directory when it exists, else the per-user file `global` when it
    /// exists, else none.
    pub fn resolve_config(&self, local_exists: bool, global: Option<&str>, global_exists: bool) -> (r: Option<String>)
        ensures
            match self.config {
                Some(p) => r matches Some(x) && x@ == p@,
                None => if local_exists {
                    r matches Some(x) && x@ == "ci-local.toml"@
                } else if global is Some && global_exists {
                    r matches Some(x) && x@ == global->0@
                } else {
                    r is None
                },
            },
    {
        match &self.config {
            Some(p) => Some(p.clone()),
            None => {
                if local_exists {
                    Some(String::from_str("ci-local.toml"))
                } else {
                    match global {
                        Some(g) => if global_exists {
                            Some(String::from_str(g))
                        } else {
                            None
                        },
                        None => None,
                    }
                }
            },
        }
    }
}

} // verus!
