use gtfsfabrik::errors::GtfsError;
use gtfsfabrik::gtfs_files::{
    det_gtfs_input_type, format_missing_gtfs_files, has_required_gtfs_files, DirEntryFacts,
    GtfsInputType, PathFacts, RequiredGtfsFile, ZipProbe,
};

#[test]
fn formats_missing_files() {
    let files = vec![RequiredGtfsFile::Stops, RequiredGtfsFile::Calendar];
    assert_eq!(format_missing_gtfs_files(&files), "stops.txt, calendar.txt");
    assert_eq!(format_missing_gtfs_files(&vec![]), "");
}

#[test]
fn feed_with_every_file_passes() {
    let names: Vec<String> = ["agency.txt", "stops.txt", "routes.txt", "trips.txt", "stop_times.txt", "calendar.txt"]
        .iter()
        .map(|s| s.to_string())
        .collect();
    assert!(has_required_gtfs_files("feed", &names).is_ok());
}

#[test]
fn feed_missing_files_is_named() {
    let names = vec![String::from("agency.txt"), String::from("stops.txt")];
    match has_required_gtfs_files("feed.zip", &names) {
        Err(GtfsError::InvalidGTFS(p, missing)) => {
            assert_eq!(p, "feed.zip");
            assert_eq!(missing, vec![RequiredGtfsFile::Routes, RequiredGtfsFile::Trips, RequiredGtfsFile::StopTimes, RequiredGtfsFile::Calendar]);
        }
        _ => panic!("expected missing files"),
    }
}

#[test]
fn error_messages() {
    let e = GtfsError::InvalidGTFS(String::from("f"), vec![RequiredGtfsFile::Agency]);
    assert_eq!(e.message(), "The GTFS feed at 'f' is missing the following REQUIRED files: agency.txt");
    assert_eq!(GtfsError::NotFound(String::from("x")).message(), "Path not found for path: 'x'");
}

#[test]
fn input_type_of_paths() {
    assert!(matches!(det_gtfs_input_type("x", &PathFacts::Missing), Err(GtfsError::NotFound(_))));
    assert!(matches!(det_gtfs_input_type("x.zip", &PathFacts::File(ZipProbe::Zip)), Ok(GtfsInputType::ZipFile(p)) if p == "x.zip"));
    assert!(matches!(det_gtfs_input_type("x.txt", &PathFacts::File(ZipProbe::NotAZip)), Err(GtfsError::NotAZip(_))));
    let feed_dir = vec![DirEntryFacts { file_name: String::from("stops.txt"), is_zip_file: false, is_gtfs_folder: false }];
    assert!(matches!(det_gtfs_input_type("d", &PathFacts::Dir(Ok(feed_dir))), Ok(GtfsInputType::UnzippedFolder(_))));
    let zips = vec![DirEntryFacts { file_name: String::from("a.zip"), is_zip_file: true, is_gtfs_folder: false }];
    assert!(matches!(det_gtfs_input_type("d", &PathFacts::Dir(Ok(zips))), Ok(GtfsInputType::MultipleZips(_))));
    let folders = vec![DirEntryFacts { file_name: String::from("cta"), is_zip_file: false, is_gtfs_folder: true }];
    assert!(matches!(det_gtfs_input_type("d", &PathFacts::Dir(Ok(folders))), Ok(GtfsInputType::MultipleFolders(_))));
    assert!(matches!(det_gtfs_input_type("d", &PathFacts::Dir(Ok(vec![]))), Err(GtfsError::Other(_))));
}
