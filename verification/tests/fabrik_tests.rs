use gtfsfabrik::gtfs_columns::{CalendarDates, ColumnPresence, GtfsColumnSet, GtfsFiles, StopColumns};
use gtfsfabrik::commands::GeoScope;
use gtfsfabrik::errors::FabrikLookupError;
use gtfsfabrik::fabrik::{Fabrik, FabrikConfig, FabrikToml, GtfsFabrikInfo, Place};

fn sample_fabrik() -> Fabrik {
    let config = FabrikConfig {
        place: Place::from_str("Chicago"),
        geoscope: GeoScope::Msa,
        is_multiagency: false,
        use_git: true,
        has_gtfs: true,
        has_osm: false,
    };
    Fabrik {
        root: String::from("/plant"),
        manifest: FabrikToml {
            fabrik_info: GtfsFabrikInfo { version: String::from("0.0.1"), file_schema: 1 },
            fabrik_title: String::from("test"),
            config,
            scenarios: vec![String::from("base")],
            lines: vec![],
            stations: vec![],
            agencies: vec![String::from("cta")],
            vehicles: vec![],
            gtfs_dirs: vec![],
            ridership_files: vec![],
            osm_files: vec![],
        },
    }
}

#[test]
fn place_read_in_parts() {
    let p = Place::from_str(" Chicago , IL,USA ");
    assert_eq!(p.name, "Chicago");
    assert_eq!(p.state, Some(String::from("IL")));
    assert_eq!(p.country, Some(String::from("USA")));
    let q = Place::from_str("Paris");
    assert_eq!(q.name, "Paris");
    assert_eq!(q.state, None);
}

#[test]
fn scenario_file_found() {
    let f = sample_fabrik();
    assert_eq!(f.scenario_file("base").unwrap(), "/plant/.fabrik/scenarios/base.toml");
    assert!(matches!(f.scenario_file("other"), Err(FabrikLookupError::ScenarioNotFound(n)) if n == "other"));
}

#[test]
fn agency_looked_up_among_scenarios() {
    let f = sample_fabrik();
    assert_eq!(f.agency_file("base").unwrap(), "/plant/.fabrik/scenarios/base.toml");
    assert!(matches!(f.agency_file("cta"), Err(FabrikLookupError::AgencyNotFound(n)) if n == "cta"));
}

#[test]
fn geoscope_lower_case_names() {
    assert_eq!(GeoScope::Place.name(), "place");
    assert_eq!(GeoScope::Csa.name(), "csa");
}

#[test]
fn column_names_and_presence() {
    assert_eq!(StopColumns::Name.name(), "stop_name");
    assert_eq!(StopColumns::Access.presence(), ColumnPresence::ConditionallyForbidden);
    assert_eq!(StopColumns::get_required(), vec![StopColumns::StopID]);
    assert_eq!(CalendarDates::get_optional(), vec![]);
    assert_eq!(GtfsFiles::Locations.file_name(), "locations.geojson");
}

#[test]
fn fare_attributes_file_name() {
    assert_eq!(GtfsFiles::FareAtrributes.file_name(), "fare_attributes.txt");
}

#[test]
fn place_trims_unicode_white_space() {
    let p = Place::from_str("\u{a0}Paris\t,\u{2003}FR ");
    assert_eq!(p.name, "Paris");
    assert_eq!(p.state, Some(String::from("FR")));
}
