use vstd::prelude::*;

use crate::commands::GeoScope;
use crate::errors::FabrikLookupError;
use crate::paths::{path_join, spec_path_join};
use crate::text::{chars_of, same_text, split_on, split_ranges};

verus! {

/// An agency of a fabrik, as its TOML file describes it.
#[derive(Debug, Clone)]
pub struct FabrikAgencyToml {
    pub name: String,
    pub gtfs_agency_id: String,
    pub display_name: Option<String>,
    pub url: Option<String>,
    pub timezone: Option<String>,
}

/// The version and file schema a fabrik was written with.
#[derive(Debug, Clone)]
pub struct GtfsFabrikInfo {
    pub version: String,
    pub file_schema: u32,
}

/// A place: a name, and the state and country where given.
#[derive(Debug, Clone)]
pub struct Place {
    pub name: String,
    pub state: Option<String>,
    pub country: Option<String>,
}

/// The settings of a fabrik.
#[derive(Debug, Clone)]
pub struct FabrikConfig {
    pub place: Place,
    pub geoscope: GeoScope,
    pub is_multiagency: bool,
    pub use_git: bool,
    pub has_gtfs: bool,
    pub has_osm: bool,
}

/// A fabrik's manifest, `fabrik.toml`: what the fabrik holds, by name.
#[derive(Debug, Clone)]
pub struct FabrikToml {
    pub fabrik_info: GtfsFabrikInfo,
    pub fabrik_title: String,
    pub config: FabrikConfig,
    pub scenarios: Vec<String>,
    pub lines: Vec<String>,
    pub stations: Vec<String>,
    pub agencies: Vec<String>,
    pub vehicles: Vec<String>,
    pub gtfs_dirs: Vec<String>,
    pub ridership_files: Vec<String>,
    pub osm_files: Vec<String>,
}

/// A GTFS directory of a fabrik.
#[derive(Debug, Clone)]
pub struct FabrikGtfsDirToml {
    pub name: String,
    pub path: String,
    pub agency: Option<String>,
    pub description: Option<String>,
}

/// An OSM file of a fabrik.
#[derive(Debug, Clone)]
pub struct FabrikOsmFileToml {
    pub name: String,
    pub path: String,
    pub description: Option<String>,
}

/// A scenario of a fabrik, as its TOML file describes it.
#[derive(Debug, Clone)]
pub struct FabrikScenarioToml {
    pub name: String,
    pub description: Option<String>,
    pub agencies: Vec<String>,
    pub gtfs_dirs: Vec<String>,
    pub osm_files: Vec<String>,
    pub lines: Vec<String>,
    pub stations: Vec<String>,
    pub vehicles: Vec<String>,
}

/// Where a fabrik stands: its scenario and commit.
#[derive(Debug, Clone)]
pub struct FabrikStateToml {
    pub current_scenario: String,
    pub current_commit: Option<String>,
    pub head_ref: Option<String>,
}

/// The pieces a scenario is built from, each named.
#[derive(Debug, Clone)]
pub struct FabrikScenario {
    pub agencies: Option<Vec<String>>,
    pub vehicles: Option<Vec<String>>,
    pub gtfs_dirs: Option<Vec<String>>,
    pub lines: Option<Vec<String>>,
    pub stations: Option<Vec<String>>,
}

/// A fabrik on disk: its root directory and its manifest.
#[derive(Debug, Clone)]
pub struct Fabrik {
    pub root: String,
    pub manifest: FabrikToml,
}

/// Whether a list of names holds `name`.
pub open spec fn lists(names: Seq<String>, name: Seq<char>) -> bool {
    exists|i: int| 0 <= i < names.len() && (#[trigger] names[i])@ == name
}

fn holds_name(names: &Vec<String>, name: &str) -> (res: bool)
    ensures
        res == lists(names@, name@),
{
    let mut i: usize = 0;
    while i < names.len()
        invariant
            i <= names@.len(),
            forall|j: int| 0 <= j < i ==> (#[trigger] names@[j])@ != name@,
        decreases names@.len() - i,
    {
        if same_text(names[i].as_str(), name) {
            return true;
        }
        i = i + 1;
    }
    false
}

/// The file of a named element under `<root>/.fabrik/scenarios`: `<name>.toml`.
pub open spec fn scenarios_file(root: Seq<char>, name: Seq<char>) -> Seq<char> {
    spec_path_join(spec_path_join(spec_path_join(root, ".fabrik"@), "scenarios"@), name + ".toml"@)
}

fn scenarios_file_of(root: &str, name: &str) -> (res: String)
    ensures
        res@ == scenarios_file(root@, name@),
{
    let dot = path_join(root, ".fabrik");
    let dir = path_join(dot.as_str(), "scenarios");
    let mut file = String::from_str(name);
    file.append(".toml");
    proof {
        reveal_strlit(".toml");
    }
    path_join(dir.as_str(), file.as_str())
}

impl Fabrik {
    /// The file of a scenario the manifest lists, or an error naming the scenario.
    pub fn scenario_file(&self, scenario_name: &str) -> (res: Result<String, FabrikLookupError>)
        ensures
            lists(self.manifest.scenarios@, scenario_name@) ==> (res matches Ok(p) && p@
                == scenarios_file(self.root@, scenario_name@)),
            !lists(self.manifest.scenarios@, scenario_name@) ==> (res matches Err(
                FabrikLookupError::ScenarioNotFound(n),
            ) && n@ == scenario_name@),
    {
        if !holds_name(&self.manifest.scenarios, scenario_name) {
            return Err(FabrikLookupError::ScenarioNotFound(String::from_str(scenario_name)));
        }
        Ok(scenarios_file_of(self.root.as_str(), scenario_name))
    }

    /// The file of an agency. An agency is looked up among the manifest's scenarios, and
    /// its file is kept beside the scenarios' files.
    pub fn agency_file(&self, agency_name: &str) -> (res: Result<String, FabrikLookupError>)
        ensures
            lists(self.manifest.scenarios@, agency_name@) ==> (res matches Ok(p) && p@
                == scenarios_file(self.root@, agency_name@)),
            !lists(self.manifest.scenarios@, agency_name@) ==> (res matches Err(
                FabrikLookupError::AgencyNotFound(n),
            ) && n@ == agency_name@),
    {
        if !holds_name(&self.manifest.scenarios, agency_name) {
            return Err(FabrikLookupError::AgencyNotFound(String::from_str(agency_name)));
        }
        Ok(scenarios_file_of(self.root.as_str(), agency_name))
    }
}

/// The characters of Unicode's `White_Space` property, which `char::is_whitespace`
/// accepts.
pub open spec fn is_white_space(c: char) -> bool {
    let u = c as int;
    ||| 0x9 <= u <= 0xd
    ||| u == 0x20
    ||| u == 0x85
    ||| u == 0xa0
    ||| u == 0x1680
    ||| 0x2000 <= u <= 0x200a
    ||| u == 0x2028
    ||| u == 0x2029
    ||| u == 0x202f
    ||| u == 0x205f
    ||| u == 0x3000
}

/// The text without its leading white space.
pub open spec fn trim_start(s: Seq<char>) -> Seq<char>
    decreases s.len(),
{
    if s.len() > 0 && is_white_space(s[0]) {
        trim_start(s.drop_first())
    } else {
        s
    }
}

/// The text without its trailing white space.
pub open spec fn trim_end(s: Seq<char>) -> Seq<char>
    decreases s.len(),
{
    if s.len() > 0 && is_white_space(s.last()) {
        trim_end(s.drop_last())
    } else {
        s
    }
}

/// What `str::trim` gives: the text without leading and trailing white space.
pub open spec fn spec_trim(s: Seq<char>) -> Seq<char> {
    trim_end(trim_start(s))
}

/// Whether `c` is one of Unicode's `White_Space` characters.
fn white_space(c: char) -> (res: bool)
    ensures
        res == is_white_space(c),
{
    let u = c as u32;
    (0x9 <= u && u <= 0xd) || u == 0x20 || u == 0x85 || u == 0xa0 || u == 0x1680 || (0x2000 <= u && u
        <= 0x200a) || u == 0x2028 || u == 0x2029 || u == 0x202f || u == 0x205f || u == 0x3000
}

/// The text without leading and trailing white space, as `str::trim` gives it.
fn trimmed(s: &str) -> (res: String)
    ensures
        res@ == spec_trim(s@),
{
    let n = s.unicode_len();
    proof {
        assert(s@.subrange(0, n as int) =~= s@);
    }
    let mut a: usize = 0;
    while a < n && white_space(s.get_char(a))
        invariant
            n == s@.len(),
            a <= n,
            trim_start(s@) == trim_start(s@.subrange(a as int, n as int)),
        decreases n - a,
    {
        proof {
            assert(s@.subrange(a as int, n as int).drop_first() =~= s@.subrange(a + 1, n as int));
        }
        a = a + 1;
    }
    proof {
        if a == n {
            assert(s@.subrange(a as int, n as int).len() == 0);
        }
    }
    let mut b: usize = n;
    while b > a && white_space(s.get_char(b - 1))
        invariant
            n == s@.len(),
            a <= b <= n,
            trim_start(s@) == s@.subrange(a as int, n as int),
            trim_end(s@.subrange(a as int, n as int)) == trim_end(s@.subrange(a as int, b as int)),
        decreases b - a,
    {
        proof {
            let t = s@.subrange(a as int, b as int);
            assert(t.last() == s@[b - 1]);
            assert(t.drop_last() =~= s@.subrange(a as int, b - 1));
        }
        b = b - 1;
    }
    proof {
        let t = s@.subrange(a as int, b as int);
        if b > a {
            assert(t.last() == s@[b - 1]);
        } else {
            assert(t.len() == 0);
        }
    }
    String::from_str(s.substring_char(a, b))
}

/// The place a text `name, state, country` describes: each part trimmed, the state and
/// the country only where given.
pub open spec fn place_parts(s: Seq<char>) -> (Seq<char>, Option<Seq<char>>, Option<Seq<char>>) {
    let parts = split_on(s, ',');
    (
        spec_trim(parts[0]),
        if parts.len() > 1 {
            Some(spec_trim(parts[1]))
        } else {
            None
        },
        if parts.len() > 2 {
            Some(spec_trim(parts[2]))
        } else {
            None
        },
    )
}

impl Place {
    /// Reads a place written as `name, state, country`; state and country may be left
    /// out.
    pub fn from_str(s: &str) -> (res: Place)
        ensures
            res.name@ == place_parts(s@).0,
            match place_parts(s@).1 {
                Some(x) => res.state matches Some(t) && t@ == x,
                None => res.state is None,
            },
            match place_parts(s@).2 {
                Some(x) => res.country matches Some(t) && t@ == x,
                None => res.country is None,
            },
    {
        let chars = chars_of(s);
        let parts = split_ranges(&chars, ',');
        proof {
            crate::text::lemma_split_on_nonempty(s@, ',');
        }
        let (a0, a1) = parts[0];
        let name = trimmed(s.substring_char(a0, a1));
        proof {
            assert(parts@[0].0 == a0 && parts@[0].1 == a1);
        }
        let state = if parts.len() > 1 {
            let (b0, b1) = parts[1];
            proof {
                assert(parts@[1].0 == b0 && parts@[1].1 == b1);
            }
            Some(trimmed(s.substring_char(b0, b1)))
        } else {
            None
        };
        let country = if parts.len() > 2 {
            let (c0, c1) = parts[2];
            proof {
                assert(parts@[2].0 == c0 && parts@[2].1 == c1);
            }
            Some(trimmed(s.substring_char(c0, c1)))
        } else {
            None
        };
        Place { name, state, country }
    }
}

} // verus!
