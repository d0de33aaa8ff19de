//! The project configuration (`mrx.toml`) and the defaults that stand in for
//! what it leaves out.

use vstd::prelude::*;

use crate::path::{
    eq_ignore_ascii_case, eq_ignore_ascii_case_exec, extension_exec, extension_of,
    file_prefix_exec, file_prefix_of, parent_exec, parent_of, push_path, join_exec,
};
use crate::text::{chars_of, string_from_chars};

verus! {

/// The project's entry file: a flake or a plain Nix file.
#[derive(Debug, Clone)]
pub enum Entrypoint {
    Flake(String),
    File(String),
}

/// An entry file: its kind (`true` for a flake) and its path.
pub type EntrypointView = (bool, Seq<char>);

impl View for Entrypoint {
    type V = EntrypointView;

    open spec fn view(&self) -> EntrypointView {
        match self {
            Entrypoint::Flake(p) => (true, p@),
            Entrypoint::File(p) => (false, p@),
        }
    }
}

/// What `Entrypoint::try_from_path` makes of a path: a flake when the file
/// is `flake.<...>.nix` (any ASCII case), another Nix file otherwise; `None`
/// when the extension is not `nix`.
pub open spec fn entrypoint_of(p: Seq<char>) -> Option<EntrypointView> {
    let is_nix = match extension_of(p) {
        Some(e) => eq_ignore_ascii_case(e, seq!['n', 'i', 'x']),
        None => false,
    };
    let is_flake = match file_prefix_of(p) {
        Some(f) => eq_ignore_ascii_case(f, seq!['f', 'l', 'a', 'k', 'e']),
        None => false,
    };
    if is_nix && is_flake {
        Some((true, p))
    } else if is_nix {
        Some((false, p))
    } else {
        None
    }
}

impl Entrypoint {
    /// The entry file at `value`; fails when its extension is not `nix`.
    pub fn try_from_path(value: String) -> (r: Result<Entrypoint, ()>)
        ensures
            match r {
                Ok(e) => entrypoint_of(value@) == Some(e@),
                Err(()) => entrypoint_of(value@) is None,
            },
    {
        let chars = chars_of(value.as_str());
        let nix: [char; 3] = ['n', 'i', 'x'];
        let flake: [char; 5] = ['f', 'l', 'a', 'k', 'e'];
        proof {
            assert(nix@ =~= seq!['n', 'i', 'x']);
            assert(flake@ =~= seq!['f', 'l', 'a', 'k', 'e']);
        }
        let is_nix = match extension_exec(chars.as_slice()) {
            Some(e) => eq_ignore_ascii_case_exec(e.as_slice(), nix.as_slice()),
            None => false,
        };
        let is_flake = match file_prefix_exec(chars.as_slice()) {
            Some(f) => eq_ignore_ascii_case_exec(f.as_slice(), flake.as_slice()),
            None => false,
        };
        if is_nix && is_flake {
            Ok(Entrypoint::Flake(value))
        } else if is_nix {
            Ok(Entrypoint::File(value))
        } else {
            Err(())
        }
    }

    /// The entry file's path.
    pub fn as_path(&self) -> (r: &str)
        ensures
            r@ == self@.1,
    {
        match self {
            Entrypoint::Flake(p) => p.as_str(),
            Entrypoint::File(p) => p.as_str(),
        }
    }

    /// A copy of the entry file.
    pub fn duplicate(&self) -> (r: Entrypoint)
        ensures
            r@ == self@,
    {
        match self {
            Entrypoint::Flake(p) => Entrypoint::Flake(p.clone()),
            Entrypoint::File(p) => Entrypoint::File(p.clone()),
        }
    }
}

/// The settings that `mrx.toml` may hold, each optional.
#[derive(Debug, Clone)]
pub struct ConfigToml {
    pub ignore_file: Option<String>,
    pub generated_out_path: Option<String>,
    pub installables: Option<Vec<String>>,
    pub entrypoint: Option<String>,
}

impl ConfigToml {
    /// The entry file that the settings name, when they name one with a
    /// `nix` extension.
    pub fn entrypoint(&self) -> (r: Option<Entrypoint>)
        ensures
            match self.entrypoint {
                Some(p) => match entrypoint_of(p@) {
                    Some(v) => r matches Some(e) && e@ == v,
                    None => r is None,
                },
                None => r is None,
            },
    {
        match &self.entrypoint {
            Some(p) => match Entrypoint::try_from_path(p.clone()) {
                Ok(e) => Some(e),
                Err(()) => None,
            },
            None => None,
        }
    }
}

/// Why the configuration could not be loaded.
#[derive(Debug, Clone)]
pub enum ConfigInitError {
    /// No file at this path.
    NotFound(String),
    /// The file is not valid TOML for the settings.
    InvalidToml,
    /// Reading the file failed otherwise (the reason).
    ReadError(String),
}

/// The project configuration.
#[derive(Debug)]
pub struct Config {
    default_entrypoint: Option<Entrypoint>,
    default_generated_out_path: String,
    default_ignore_file: String,
    default_installables: Vec<String>,
    path: String,
    toml: ConfigToml,
}

/// `mrx.generated.toml`
pub open spec fn default_generated_out_path() -> Seq<char> {
    seq!['m', 'r', 'x', '.', 'g', 'e', 'n', 'e', 'r', 'a', 't', 'e', 'd', '.', 't', 'o', 'm', 'l']
}

/// `mrx.ignore`
pub open spec fn default_ignore_file() -> Seq<char> {
    seq!['m', 'r', 'x', '.', 'i', 'g', 'n', 'o', 'r', 'e']
}

/// `./flake.nix`
pub open spec fn default_flake() -> Seq<char> {
    seq!['.', '/', 'f', 'l', 'a', 'k', 'e', '.', 'n', 'i', 'x']
}

/// `./default.nix`
pub open spec fn default_file() -> Seq<char> {
    seq!['.', '/', 'd', 'e', 'f', 'a', 'u', 'l', 't', '.', 'n', 'i', 'x']
}

/// `./`
pub open spec fn dot_slash() -> Seq<char> {
    seq!['.', '/']
}

/// `.mrx`
pub open spec fn state_dir_name() -> Seq<char> {
    seq!['.', 'm', 'r', 'x']
}

/// The project directory for a configuration file at `path`: the file's
/// directory when it has one and that exists, `./` otherwise.
pub open spec fn dir_of(path: Seq<char>, parent_exists: bool) -> Seq<char> {
    match parent_of(path) {
        Some(p) => if parent_exists {
            p
        } else {
            dot_slash()
        },
        None => dot_slash(),
    }
}

/// The generated file: the one the settings name, `mrx.generated.toml`
/// otherwise.
pub open spec fn generated_out_path_of(t: ConfigToml) -> Seq<char> {
    match t.generated_out_path {
        Some(p) => p@,
        None => default_generated_out_path(),
    }
}

impl Config {
    #[verifier::type_invariant]
    spec fn defaults_hold(&self) -> bool {
        &&& self.default_generated_out_path@ == default_generated_out_path()
        &&& self.default_ignore_file@ == default_ignore_file()
        &&& self.default_installables@.len() == 0
        &&& match self.default_entrypoint {
            Some(Entrypoint::Flake(p)) => p@ == default_flake(),
            Some(Entrypoint::File(p)) => p@ == default_file(),
            None => true,
        }
    }

    /// The path of the configuration file.
    pub closed spec fn path_view(&self) -> Seq<char> {
        self.path@
    }

    /// The settings read from the file.
    pub closed spec fn toml_view(&self) -> ConfigToml {
        self.toml
    }

    /// The entry file in use: the one the settings name when it has a `nix`
    /// extension, the default one otherwise (see `get_entrypoint`).
    pub closed spec fn get_entrypoint_view(&self) -> Option<EntrypointView> {
        match self.toml.entrypoint {
            Some(p) if entrypoint_of(p@) is Some => entrypoint_of(p@),
            _ => self.default_entrypoint_view(),
        }
    }

    /// The installables in use: those the settings name, none otherwise.
    pub closed spec fn installables_view(&self) -> Seq<String> {
        match self.toml.installables {
            Some(v) => v@,
            None => seq![],
        }
    }

    /// The entry file used when the settings name none.
    pub closed spec fn default_entrypoint_view(&self) -> Option<EntrypointView> {
        match self.default_entrypoint {
            Some(e) => Some(e@),
            None => None,
        }
    }

    /// The configuration read from the file at `path`, with `toml` its
    /// settings; `flake_exists` and `default_exists` tell whether
    /// `./flake.nix` and `./default.nix` exist, which decides the default
    /// entry file (the flake first).
    pub fn from_toml(path: String, toml: ConfigToml, flake_exists: bool, default_exists: bool) -> (r:
        Config)
        ensures
            r.path_view() == path@,
            r.toml_view() == toml,
            r.default_entrypoint_view() == (if flake_exists {
                Some((true, default_flake()))
            } else if default_exists {
                Some((false, default_file()))
            } else {
                None
            }),
    {
        let default_entrypoint = if flake_exists {
            let p = "./flake.nix";
            proof {
                reveal_strlit("./flake.nix");
                assert(p@ =~= default_flake());
            }
            let chars = chars_of(p);
            Some(Entrypoint::Flake(string_from_chars(chars.as_slice())))
        } else if default_exists {
            let p = "./default.nix";
            proof {
                reveal_strlit("./default.nix");
                assert(p@ =~= default_file());
            }
            let chars = chars_of(p);
            Some(Entrypoint::File(string_from_chars(chars.as_slice())))
        } else {
            None
        };
        let gen = "mrx.generated.toml";
        let ign = "mrx.ignore";
        proof {
            reveal_strlit("mrx.generated.toml");
            reveal_strlit("mrx.ignore");
            assert(gen@ =~= default_generated_out_path());
            assert(ign@ =~= default_ignore_file());
        }
        let gen_chars = chars_of(gen);
        let ign_chars = chars_of(ign);
        Config {
            default_entrypoint,
            default_generated_out_path: string_from_chars(gen_chars.as_slice()),
            default_ignore_file: string_from_chars(ign_chars.as_slice()),
            default_installables: Vec::new(),
            path,
            toml,
        }
    }

    /// The directory that holds the configuration file, when it has one.
    pub fn parent(&self) -> (r: Option<String>)
        ensures
            match r {
                Some(p) => parent_of(self.path_view()) == Some(p@),
                None => parent_of(self.path_view()) is None,
            },
    {
        let chars = chars_of(self.path.as_str());
        match parent_exec(chars.as_slice()) {
            Some(p) => Some(string_from_chars(p.as_slice())),
            None => None,
        }
    }

    /// The project directory: the configuration file's directory when it
    /// has one and it exists (`parent_exists`), `./` otherwise.
    pub fn dir(&self, parent_exists: bool) -> (r: String)
        ensures
            r@ == dir_of(self.path_view(), parent_exists),
    {
        match self.parent() {
            Some(p) => if parent_exists {
                p
            } else {
                let d = "./";
                proof {
                    reveal_strlit("./");
                }
                let chars = chars_of(d);
                string_from_chars(chars.as_slice())
            },
            None => {
                let d = "./";
                proof {
                    reveal_strlit("./");
                }
                let chars = chars_of(d);
                string_from_chars(chars.as_slice())
            },
        }
    }

    /// The state directory: `.mrx` in the project directory.
    pub fn state_dir(&self, parent_exists: bool) -> (r: String)
        ensures
            r@ == push_path(dir_of(self.path_view(), parent_exists), state_dir_name()),
    {
        let dir = self.dir(parent_exists);
        let d = chars_of(dir.as_str());
        let name = ".mrx";
        proof {
            reveal_strlit(".mrx");
        }
        let n = chars_of(name);
        let joined = join_exec(d.as_slice(), n.as_slice());
        string_from_chars(joined.as_slice())
    }

    /// The ignore file: the one the settings name, `mrx.ignore` otherwise.
    pub fn get_ignore_file(&self) -> (r: &String)
        ensures
            r@ == match self.toml_view().ignore_file {
                Some(p) => p@,
                None => default_ignore_file(),
            },
    {
        proof {
            use_type_invariant(self);
        }
        match &self.toml.ignore_file {
            Some(p) => p,
            None => &self.default_ignore_file,
        }
    }

    /// The generated file: the one the settings name, `mrx.generated.toml`
    /// otherwise.
    pub fn get_generated_out_path(&self) -> (r: &String)
        ensures
            r@ == generated_out_path_of(self.toml_view()),
    {
        proof {
            use_type_invariant(self);
        }
        match &self.toml.generated_out_path {
            Some(p) => p,
            None => &self.default_generated_out_path,
        }
    }

    /// The installables: those the settings name, none otherwise.
    pub fn get_installables(&self) -> (r: &Vec<String>)
        ensures
            r@ == self.installables_view(),
            match self.toml_view().installables {
                Some(v) => r@ == v@,
                None => r@.len() == 0,
            },
    {
        proof {
            use_type_invariant(self);
        }
        match &self.toml.installables {
            Some(v) => v,
            None => &self.default_installables,
        }
    }

    /// The entry file: the one the settings name when it has a `nix`
    /// extension, the default one otherwise.
    pub fn get_entrypoint(&self) -> (r: Option<Entrypoint>)
        ensures
            match r {
                Some(e) => self.get_entrypoint_view() == Some(e@),
                None => self.get_entrypoint_view() is None,
            },
            match self.toml_view().entrypoint {
                Some(p) if entrypoint_of(p@) is Some => r matches Some(e) && Some(e@) == entrypoint_of(
                    p@,
                ),
                _ => match self.default_entrypoint_view() {
                    Some(v) => r matches Some(e) && e@ == v,
                    None => r is None,
                },
            },
    {
        proof {
            use_type_invariant(self);
        }
        match self.toml.entrypoint() {
            Some(e) => Some(e),
            None => match &self.default_entrypoint {
                Some(e) => Some(e.duplicate()),
                None => None,
            },
        }
    }
}

/// The ignore file to use while listing the project's files: the
/// configured one (see `Config::get_ignore_file`), when it exists
/// (`exists`).
pub fn get_config_ignore(config: &Config, exists: bool) -> (r: Option<String>)
    ensures
        match r {
            Some(p) => exists && p@ == match config.toml_view().ignore_file {
                Some(f) => f@,
                None => default_ignore_file(),
            },
            None => !exists,
        },
{
    if exists {
        Some(config.get_ignore_file().clone())
    } else {
        None
    }
}

} // verus!
