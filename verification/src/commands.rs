use vstd::prelude::*;

use crate::errors::{FabrikCommandError, InitError, InteractiveError};
use crate::paths::{path_join, spec_path_join};

verus! {

/// The geographic scope of a fabrik.
#[derive(Debug, Clone, Copy, PartialEq, Eq, Structural)]
pub enum GeoScope {
    Place,
    County,
    Msa,
    Csa,
}

impl GeoScope {
    pub open spec fn spec_name(self) -> Seq<char> {
        match self {
            GeoScope::Place => "place"@,
            GeoScope::County => "county"@,
            GeoScope::Msa => "msa"@,
            GeoScope::Csa => "csa"@,
        }
    }

    /// The scope's name in lower case, as the init command takes it.
    pub fn name(&self) -> (res: &'static str)
        ensures
            res@ == self.spec_name(),
    {
        match self {
            GeoScope::Place => "place",
            GeoScope::County => "county",
            GeoScope::Msa => "msa",
            GeoScope::Csa => "csa",
        }
    }
}

/// The command line: one subcommand.
#[derive(Debug, Clone)]
pub struct Cli {
    pub command: Commands,
}

/// The subcommands of the command line.
#[derive(Debug, Clone)]
pub enum Commands {
    /// Creates a new fabrik.
    Init {
        path: Option<String>,
        gtfs: Option<Vec<String>>,
        osm: Option<String>,
        place: Option<String>,
        geoscope: Option<GeoScope>,
        ridership: Option<String>,
        usegit: bool,
    },
    Scenario,
    Add,
    Remove,
    Stash,
    Unstash,
    Version,
    List,
    Summary,
    /// Opens the interactive shell on a scenario.
    Interactive { use_semicolons: bool, scenario: String },
}

/// What the init command is given.
#[derive(Debug, Clone)]
pub struct InitOptions {
    pub path: String,
    pub gtfs: Option<Vec<String>>,
    pub osm: Option<String>,
    pub place: Option<String>,
    pub geoscope: Option<String>,
    pub ridership: Option<String>,
    pub usegit: bool,
}

/// What the interactive shell is given.
#[derive(Debug, Clone)]
pub struct InteractiveOptions {
    pub scenario_name: String,
    pub use_semicolons: bool,
}

/// The interactive shell; it has nothing to do yet and succeeds.
pub fn run_interactive_repl(options: Option<InteractiveOptions>) -> (res: Result<(), InteractiveError>)
    ensures
        res is Ok,
{
    Ok(())
}

/// Runs a command as far as it needs no file system: the interactive shell runs here,
/// and for `init` the options to create the fabrik with come back. A command that is not
/// implemented, or `init` without a path, is an error.
pub fn run_command(command: Commands) -> (res: Result<Option<InitOptions>, FabrikCommandError>)
    ensures
        match command {
            Commands::Interactive { .. } => res matches Ok(None),
            Commands::Init { path, gtfs, osm, place, geoscope, ridership, usegit } => match path {
                None => res matches Err(FabrikCommandError::InitError(InitError::NoPathProvided)),
                Some(p) => res matches Ok(Some(o)) && o.path == p && o.gtfs == gtfs && o.osm == osm
                    && o.place == place && o.ridership == ridership && o.usegit == usegit && match geoscope {
                    Some(g) => o.geoscope matches Some(s) && s@ == g.spec_name(),
                    None => o.geoscope is None,
                },
            },
            _ => res matches Err(FabrikCommandError::CommandNotImplemented),
        },
{
    match command {
        Commands::Interactive { use_semicolons, scenario } => {
            let interactive_options = InteractiveOptions { use_semicolons, scenario_name: scenario };
            match run_interactive_repl(Some(interactive_options)) {
                Ok(()) => Ok(None),
                Err(e) => Err(FabrikCommandError::InteractiveError(e)),
            }
        },
        Commands::Init { path, gtfs, osm, place, geoscope, ridership, usegit } => {
            let input_path = match path {
                Some(p) => p,
                None => return Err(FabrikCommandError::InitError(InitError::NoPathProvided)),
            };
            let geoscope_name = match geoscope {
                Some(g) => Some(String::from_str(g.name())),
                None => None,
            };
            Ok(
                Some(
                    InitOptions {
                        path: input_path,
                        gtfs,
                        osm,
                        place,
                        geoscope: geoscope_name,
                        ridership,
                        usegit,
                    },
                ),
            )
        },
        _ => Err(FabrikCommandError::CommandNotImplemented),
    }
}

/// The message shown once a fabrik is created.
pub fn init_success_message(path: &str) -> (res: String)
    ensures
        res@ == "Successfully created a new fabrik at "@ + path@,
{
    let mut msg = String::from_str("Successfully created a new fabrik at ");
    msg.append(path);
    msg
}

/// Whether a geographic scope given to init is one of the four known names.
pub open spec fn known_geoscope(s: Seq<char>) -> bool {
    s == "place"@ || s == "county"@ || s == "msa"@ || s == "csa"@
}

/// Exactly four scope names are known: `place`, `county`, `msa` and `csa`.
pub proof fn lemma_known_geoscopes(s: Seq<char>)
    ensures
        known_geoscope("place"@),
        known_geoscope("county"@),
        known_geoscope("msa"@),
        known_geoscope("csa"@),
        known_geoscope(s) ==> s == "place"@ || s == "county"@ || s == "msa"@ || s == "csa"@,
{
}

/// Accepts no scope, or one of `place`, `county`, `msa` and `csa` given together with a
/// place: a scope is taken around a place, so it requires one.
pub fn check_geoscope(geoscope: &Option<String>, place: &Option<String>) -> (res: Result<(), InitError>)
    ensures
        match geoscope {
            Some(g) => if !known_geoscope(g@) {
                res matches Err(InitError::InvalidGeoScope)
            } else if place is None {
                res matches Err(InitError::GeoScopeWithoutPlace)
            } else {
                res is Ok
            },
            None => res is Ok,
        },
        geoscope matches Some(g) && (g@ == "place"@ || g@ == "county"@ || g@ == "msa"@ || g@ == "csa"@)
            && place is Some ==> res is Ok,
        geoscope matches Some(g) && !(g@ == "place"@ || g@ == "county"@ || g@ == "msa"@ || g@ == "csa"@)
            ==> res matches Err(InitError::InvalidGeoScope),
{
    match geoscope {
        Some(g) => {
            let s = g.as_str();
            if !(crate::text::same_text(s, "place") || crate::text::same_text(s, "county")
                || crate::text::same_text(s, "msa") || crate::text::same_text(s, "csa")) {
                Err(InitError::InvalidGeoScope)
            } else if place.is_none() {
                Err(InitError::GeoScopeWithoutPlace)
            } else {
                Ok(())
            }
        },
        None => Ok(()),
    }
}

/// The directories and files a new fabrik is made of.
#[derive(Debug, Clone)]
pub struct FabrikLayout {
    pub logs_dir: String,
    pub log_files: Vec<String>,
    pub fabrik_dir: String,
    pub subdirs: Vec<String>,
    pub haupt_file: String,
}

/// The names of the log files of a fabrik, without `.log`.
pub open spec fn log_names() -> Seq<Seq<char>> {
    seq!["info"@, "debug"@, "warnings"@, "errors"@, "command_history"@]
}

/// The directories inside a fabrik's `fabrik` directory.
pub open spec fn subdir_names() -> Seq<Seq<char>> {
    seq!["data"@, "elements"@, "products"@, "analysis"@, "scenarios"@]
}

fn log_name(i: usize) -> (res: &'static str)
    requires
        i < 5,
    ensures
        res@ == log_names()[i as int],
{
    if i == 0 {
        "info"
    } else if i == 1 {
        "debug"
    } else if i == 2 {
        "warnings"
    } else if i == 3 {
        "errors"
    } else {
        "command_history"
    }
}

fn subdir_name(i: usize) -> (res: &'static str)
    requires
        i < 5,
    ensures
        res@ == subdir_names()[i as int],
{
    if i == 0 {
        "data"
    } else if i == 1 {
        "elements"
    } else if i == 2 {
        "products"
    } else if i == 3 {
        "analysis"
    } else {
        "scenarios"
    }
}

/// Where everything of a new fabrik at `base` goes: `.logs` with one `.log` file per log,
/// and `fabrik` with its subdirectories and `fabrik.toml`.
pub fn fabrik_layout(base: &str) -> (res: FabrikLayout)
    ensures
        res.logs_dir@ == spec_path_join(base@, ".logs"@),
        res.log_files@.len() == 5,
        forall|i: int| 0 <= i < 5 ==> (#[trigger] res.log_files@[i])@ == spec_path_join(
            spec_path_join(base@, ".logs"@),
            log_names()[i] + ".log"@,
        ),
        res.fabrik_dir@ == spec_path_join(base@, "fabrik"@),
        res.subdirs@.len() == 5,
        forall|i: int| 0 <= i < 5 ==> (#[trigger] res.subdirs@[i])@ == spec_path_join(
            spec_path_join(base@, "fabrik"@),
            subdir_names()[i],
        ),
        res.haupt_file@ == spec_path_join(spec_path_join(base@, "fabrik"@), "fabrik.toml"@),
{
    let logs_dir = path_join(base, ".logs");
    let mut log_files: Vec<String> = Vec::new();
    let mut i: usize = 0;
    proof {
        reveal_strlit(".log");
    }
    while i < 5
        invariant
            i <= 5,
            log_files@.len() == i,
            forall|j: int| 0 <= j < i ==> (#[trigger] log_files@[j])@ == spec_path_join(
                logs_dir@,
                log_names()[j] + ".log"@,
            ),
        decreases 5 - i,
    {
        let mut name = String::from_str(log_name(i));
        name.append(".log");
        log_files.push(path_join(logs_dir.as_str(), name.as_str()));
        i = i + 1;
    }
    let fabrik_dir = path_join(base, "fabrik");
    let mut subdirs: Vec<String> = Vec::new();
    let mut k: usize = 0;
    while k < 5
        invariant
            k <= 5,
            subdirs@.len() == k,
            forall|j: int| 0 <= j < k ==> (#[trigger] subdirs@[j])@ == spec_path_join(
                fabrik_dir@,
                subdir_names()[j],
            ),
        decreases 5 - k,
    {
        subdirs.push(path_join(fabrik_dir.as_str(), subdir_name(k)));
        k = k + 1;
    }
    let haupt_file = path_join(fabrik_dir.as_str(), "fabrik.toml");
    FabrikLayout { logs_dir, log_files, fabrik_dir, subdirs, haupt_file }
}

} // verus!
