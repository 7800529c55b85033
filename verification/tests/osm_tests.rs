use gtfsfabrik::errors::OSMError;
use gtfsfabrik::osm_files::{classify_osm, validate_osm};

#[test]
fn cant_find_file() {
    assert!(matches!(validate_osm("/tmp/does_not_exist"), Err(OSMError::FileNotFound(_))));
}

#[test]
fn nonexistent_pbf_path() {
    let result = validate_osm("/tmp/some_fake_file.pbf");
    assert!(result.is_err());
}

#[test]
fn directory_returns_not_a_file() {
    assert!(matches!(validate_osm("/tmp"), Err(OSMError::NotAFile(_))));
}

#[test]
fn classify_pbf_file() {
    assert!(classify_osm("map.osm.pbf", true, false).is_ok());
    assert!(matches!(classify_osm("map.json", true, false), Err(OSMError::NotAPbfFile(p)) if p == "map.json"));
    assert!(matches!(classify_osm("map", true, false), Err(OSMError::UnknownError(_))));
    assert!(matches!(classify_osm("map.pbf", false, false), Err(OSMError::FileNotFound(_))));
    assert!(matches!(classify_osm("dir.pbf", true, true), Err(OSMError::NotAFile(_))));
}

#[test]
fn wrong_extension_osm_fails() {
    assert!(matches!(validate_osm("/etc/ld.so.conf"), Err(OSMError::NotAPbfFile(_))));
}
