use vstd::prelude::*;

use crate::datetime::Seconds;
use crate::gtfs_files::{file_names, format_missing_gtfs_files, joined, RequiredGtfsFile};
use crate::text::{decimal, push_decimal};
use crate::raptor::types::RaptorStopID;

verus! {

/// Why a GTFS time could not be read.
#[derive(Debug, Clone, PartialEq, Eq)]
pub enum TimeParsingError {
    /// The text is not three `:`-separated parts, or its hours are not a number.
    InvalidFormat(String),
    /// A minutes or seconds part (named first) is not a number below 60.
    InvalidComponent(String, String),
}

/// Errors of the routing algorithms and of building their timetable.
#[derive(Debug, Clone)]
pub enum RaptorError {
    DestinationUnreachable { origin: RaptorStopID, destination: RaptorStopID, departure_time: Seconds },
    NoTrips { route_id: String, earliest_departure: Seconds },
    EmptyJourney,
    RouteNotFound { route_id: String },
    InvalidDepartureTime(Seconds),
    /// The table library's error, as it writes it: a missing column, or a file it
    /// could not read.
    PolarsError(String),
    MissingStop(usize),
    InvalidGtfs(String),
    StopTimeParsingError { row: usize, source: TimeParsingError },
    StopLocationParsingError { lat_or_lon: String, row: usize, source: String },
    CacheError(String),
    UnknownError(String),
}

/// Errors met while checking GTFS input; each carries the path (or, for `IoError`, the
/// system's message).
#[derive(Debug, Clone)]
pub enum GtfsError {
    NotFound(String),
    NotAZip(String),
    InvalidGTFS(String, Vec<RequiredGtfsFile>),
    IoError(String),
    Other(String),
}

pub open spec fn gtfs_error_message(e: GtfsError) -> Seq<char> {
    match e {
        GtfsError::NotFound(p) => "Path not found for path: '"@ + p@ + "'"@,
        GtfsError::NotAZip(p) => "The path you provided was a file, but not a zip file!: '"@ + p@
            + "'"@,
        GtfsError::InvalidGTFS(p, missing) => "The GTFS feed at '"@ + p@
            + "' is missing the following REQUIRED files: "@ + joined(
            file_names(missing@),
            ", "@,
        ),
        GtfsError::IoError(p) => "An IO error occured with '"@ + p@
            + "' Maybe try checking file permissions or submitting a bug report"@,
        GtfsError::Other(p) => "The provided path is not a GTFS folder or zipfile!: '"@ + p@
            + "' . Submit a bug report if you believe this is incorrect"@,
    }
}

impl GtfsError {
    /// The message shown to the user.
    pub fn message(&self) -> (res: String)
        ensures
            res@ == gtfs_error_message(*self),
    {
        let mut out = String::new();
        match self {
            GtfsError::NotFound(p) => {
                out.append("Path not found for path: '");
                out.append(p.as_str());
                out.append("'");
            },
            GtfsError::NotAZip(p) => {
                out.append("The path you provided was a file, but not a zip file!: '");
                out.append(p.as_str());
                out.append("'");
            },
            GtfsError::InvalidGTFS(p, missing) => {
                out.append("The GTFS feed at '");
                out.append(p.as_str());
                out.append("' is missing the following REQUIRED files: ");
                let listed = format_missing_gtfs_files(missing);
                out.append(listed.as_str());
            },
            GtfsError::IoError(p) => {
                out.append("An IO error occured with '");
                out.append(p.as_str());
                out.append("' Maybe try checking file permissions or submitting a bug report");
            },
            GtfsError::Other(p) => {
                out.append("The provided path is not a GTFS folder or zipfile!: '");
                out.append(p.as_str());
                out.append("' . Submit a bug report if you believe this is incorrect");
            },
        }
        proof {
            assert(out@ =~= gtfs_error_message(*self));
        }
        out
    }
}

/// Errors met while checking an OSM file argument; each carries the argument.
#[derive(Debug, Clone, PartialEq, Eq)]
pub enum OSMError {
    FileNotFound(String),
    NotAPbfFile(String),
    NotAFile(String),
    UnknownError(String),
}

/// The OSM file errors under the name that the file checks give them.
pub type OSMErorr = OSMError;

#[derive(Debug, Clone, PartialEq, Eq)]
pub enum GeocodingError {
    NoInput(String),
    GeocodingFailed(String),
}

/// Errors of the init command.
#[derive(Debug, Clone)]
pub enum InitError {
    /// A file-system operation failed (the message says why).
    IOError(String),
    InvalidGeoScope,
    /// A geographic scope was given without the place it is taken around.
    GeoScopeWithoutPlace,
    PathNotEmpty,
    GTFSError(GtfsError),
    OSMError(OSMError),
    NoPathProvided,
}

/// Errors of the interactive shell (the messages say why).
#[derive(Debug, Clone, PartialEq, Eq)]
pub enum InteractiveError {
    ReadlineError(String),
    ParseError(String),
}

/// Errors of running a command.
#[derive(Debug, Clone)]
pub enum FabrikCommandError {
    InitError(InitError),
    InteractiveError(InteractiveError),
    CommandNotImplemented,
}

/// Errors of looking up a fabrik's files.
#[derive(Debug, Clone, PartialEq, Eq)]
pub enum FabrikLookupError {
    ScenarioNotFound(String),
    AgencyNotFound(String),
    /// Reading a file failed (the message says why).
    Io(String),
    /// A file is not valid TOML for its kind (the message says why).
    Toml(String),
}

pub open spec fn time_error_message(e: TimeParsingError) -> Seq<char> {
    match e {
        TimeParsingError::InvalidFormat(t) => "invalid time format '"@ + t@ + "', expected HH:mm:ss"@,
        TimeParsingError::InvalidComponent(n, p) => "invalid "@ + n@ + " component '"@ + p@ + "'"@,
    }
}

impl TimeParsingError {
    /// The message shown to the user.
    pub fn message(&self) -> (res: String)
        ensures
            res@ == time_error_message(*self),
    {
        let mut out = String::new();
        match self {
            TimeParsingError::InvalidFormat(t) => {
                out.append("invalid time format '");
                out.append(t.as_str());
                out.append("', expected HH:mm:ss");
            },
            TimeParsingError::InvalidComponent(n, p) => {
                out.append("invalid ");
                out.append(n.as_str());
                out.append(" component '");
                out.append(p.as_str());
                out.append("'");
            },
        }
        proof {
            assert(out@ =~= time_error_message(*self));
        }
        out
    }
}

pub open spec fn osm_error_message(e: OSMError) -> Seq<char> {
    match e {
        OSMError::FileNotFound(p) => "No file was found at the path you provided: "@ + p@,
        OSMError::NotAPbfFile(p) => "The file you inputted was not an OSM PBF file! "@ + p@,
        OSMError::NotAFile(p) => "The path you gave is a directory, not a file! "@ + p@,
        OSMError::UnknownError(p) => "Unknown error with path "@ + p@,
    }
}

impl OSMError {
    /// The message shown to the user.
    pub fn message(&self) -> (res: String)
        ensures
            res@ == osm_error_message(*self),
    {
        let (head, p) = match self {
            OSMError::FileNotFound(p) => ("No file was found at the path you provided: ", p),
            OSMError::NotAPbfFile(p) => ("The file you inputted was not an OSM PBF file! ", p),
            OSMError::NotAFile(p) => ("The path you gave is a directory, not a file! ", p),
            OSMError::UnknownError(p) => ("Unknown error with path ", p),
        };
        let mut out = String::from_str(head);
        out.append(p.as_str());
        out
    }
}

pub open spec fn init_error_message(e: InitError) -> Seq<char> {
    match e {
        InitError::IOError(m) => "IO error: "@ + m@,
        InitError::InvalidGeoScope => "Geographic scope given was invalid, must be ('place', 'county', 'msa', or 'csa')"@,
        InitError::GeoScopeWithoutPlace => "A geographic scope requires a place (--place)"@,
        InitError::PathNotEmpty => "There is already something at the desired path!"@,
        InitError::GTFSError(g) => "GTFS error: "@ + gtfs_error_message(g),
        InitError::OSMError(o) => "OSM Error!: "@ + osm_error_message(o),
        InitError::NoPathProvided => "No path provided!"@,
    }
}

impl InitError {
    /// The message shown to the user.
    pub fn message(&self) -> (res: String)
        ensures
            res@ == init_error_message(*self),
    {
        match self {
            InitError::IOError(m) => {
                let mut out = String::from_str("IO error: ");
                out.append(m.as_str());
                out
            },
            InitError::InvalidGeoScope => String::from_str(
                "Geographic scope given was invalid, must be ('place', 'county', 'msa', or 'csa')",
            ),
            InitError::GeoScopeWithoutPlace => String::from_str("A geographic scope requires a place (--place)"),
            InitError::PathNotEmpty => String::from_str("There is already something at the desired path!"),
            InitError::GTFSError(g) => {
                let mut out = String::from_str("GTFS error: ");
                let m = g.message();
                out.append(m.as_str());
                out
            },
            InitError::OSMError(o) => {
                let mut out = String::from_str("OSM Error!: ");
                let m = o.message();
                out.append(m.as_str());
                out
            },
            InitError::NoPathProvided => String::from_str("No path provided!"),
        }
    }
}

pub open spec fn interactive_error_message(e: InteractiveError) -> Seq<char> {
    match e {
        InteractiveError::ReadlineError(m) => "Readline error: "@ + m@,
        InteractiveError::ParseError(m) => "Failed to parse command line: "@ + m@,
    }
}

impl InteractiveError {
    /// The message shown to the user.
    pub fn message(&self) -> (res: String)
        ensures
            res@ == interactive_error_message(*self),
    {
        let (head, m) = match self {
            InteractiveError::ReadlineError(m) => ("Readline error: ", m),
            InteractiveError::ParseError(m) => ("Failed to parse command line: ", m),
        };
        let mut out = String::from_str(head);
        out.append(m.as_str());
        out
    }
}

pub open spec fn command_error_message(e: FabrikCommandError) -> Seq<char> {
    match e {
        FabrikCommandError::InitError(i) => init_error_message(i),
        FabrikCommandError::InteractiveError(i) => interactive_error_message(i),
        FabrikCommandError::CommandNotImplemented => "That command has not been implemented yet, sorry!"@,
    }
}

impl FabrikCommandError {
    /// The message shown to the user.
    pub fn message(&self) -> (res: String)
        ensures
            res@ == command_error_message(*self),
    {
        match self {
            FabrikCommandError::InitError(i) => i.message(),
            FabrikCommandError::InteractiveError(i) => i.message(),
            FabrikCommandError::CommandNotImplemented => String::from_str(
                "That command has not been implemented yet, sorry!",
            ),
        }
    }
}

pub open spec fn lookup_error_message(e: FabrikLookupError) -> Seq<char> {
    match e {
        FabrikLookupError::ScenarioNotFound(n) => "Could not find scenario '"@ + n@ + "'"@,
        FabrikLookupError::AgencyNotFound(n) => "Could not find agency '"@ + n@ + "'"@,
        FabrikLookupError::Io(_) => "Couldn't read file"@,
        FabrikLookupError::Toml(_) => "Couldn't parse toml"@,
    }
}

impl FabrikLookupError {
    /// The message shown to the user.
    pub fn message(&self) -> (res: String)
        ensures
            res@ == lookup_error_message(*self),
    {
        match self {
            FabrikLookupError::ScenarioNotFound(n) => {
                let mut out = String::from_str("Could not find scenario '");
                out.append(n.as_str());
                out.append("'");
                out
            },
            FabrikLookupError::AgencyNotFound(n) => {
                let mut out = String::from_str("Could not find agency '");
                out.append(n.as_str());
                out.append("'");
                out
            },
            FabrikLookupError::Io(_) => String::from_str("Couldn't read file"),
            FabrikLookupError::Toml(_) => String::from_str("Couldn't parse toml"),
        }
    }
}

pub open spec fn raptor_error_message(e: RaptorError) -> Seq<char> {
    match e {
        RaptorError::DestinationUnreachable { .. } => "Destination stop is not reachable from origin station"@,
        RaptorError::NoTrips { route_id, earliest_departure } => "No trips found for route "@
            + route_id@ + " after "@ + decimal(earliest_departure as nat) + "s"@,
        RaptorError::EmptyJourney => "Journey has no legs"@,
        RaptorError::RouteNotFound { route_id } => "Route "@ + route_id@ + " not found in timetable"@,
        RaptorError::InvalidDepartureTime(t) => "Departure time "@ + decimal(t as nat) + " is invalid"@,
        RaptorError::PolarsError(m) => "Polars error: "@ + m@,
        RaptorError::MissingStop(i) => "Missing stop at index "@ + decimal(i as nat)
            + " during timetable construction"@,
        RaptorError::InvalidGtfs(m) => "Invalid GTFS data: "@ + m@,
        RaptorError::StopTimeParsingError { row, source } => "Time parsing error in stop_times.txt at row "@
            + decimal(row as nat) + ": \n "@ + time_error_message(source),
        RaptorError::StopLocationParsingError { row, source, .. } =>
            "Failed to parse stop location in stops.txt file at row '"@ + decimal(row as nat) + "' \n "@
            + source@,
        RaptorError::CacheError(m) => "Cache error when trying to build raptor: "@ + m@,
        RaptorError::UnknownError(m) => "Some unknown error occured "@ + m@,
    }
}

impl RaptorError {
    /// The message shown to the user.
    pub fn message(&self) -> (res: String)
        ensures
            res@ == raptor_error_message(*self),
    {
        let mut out = String::new();
        match self {
            RaptorError::DestinationUnreachable { .. } => {
                out.append("Destination stop is not reachable from origin station");
            },
            RaptorError::NoTrips { route_id, earliest_departure } => {
                out.append("No trips found for route ");
                out.append(route_id.as_str());
                out.append(" after ");
                push_decimal(&mut out, *earliest_departure);
                out.append("s");
            },
            RaptorError::EmptyJourney => {
                out.append("Journey has no legs");
            },
            RaptorError::RouteNotFound { route_id } => {
                out.append("Route ");
                out.append(route_id.as_str());
                out.append(" not found in timetable");
            },
            RaptorError::InvalidDepartureTime(t) => {
                out.append("Departure time ");
                push_decimal(&mut out, *t);
                out.append(" is invalid");
            },
            RaptorError::PolarsError(m) => {
                out.append("Polars error: ");
                out.append(m.as_str());
            },
            RaptorError::MissingStop(i) => {
                out.append("Missing stop at index ");
                push_decimal(&mut out, *i);
                out.append(" during timetable construction");
            },
            RaptorError::InvalidGtfs(m) => {
                out.append("Invalid GTFS data: ");
                out.append(m.as_str());
            },
            RaptorError::StopTimeParsingError { row, source } => {
                out.append("Time parsing error in stop_times.txt at row ");
                push_decimal(&mut out, *row);
                out.append(": \n ");
                let m = source.message();
                out.append(m.as_str());
            },
            RaptorError::StopLocationParsingError { row, source, .. } => {
                out.append("Failed to parse stop location in stops.txt file at row '");
                push_decimal(&mut out, *row);
                out.append("' \n ");
                out.append(source.as_str());
            },
            RaptorError::CacheError(m) => {
                out.append("Cache error when trying to build raptor: ");
                out.append(m.as_str());
            },
            RaptorError::UnknownError(m) => {
                out.append("Some unknown error occured ");
                out.append(m.as_str());
            },
        }
        proof {
            assert(out@ =~= raptor_error_message(*self));
        }
        out
    }
}

} // verus!
