use gtfsfabrik::commands::check_geoscope;
use gtfsfabrik::commands::{fabrik_layout, run_command, Commands};

#[test]
fn create_fabrik_no_args() {
    let desired_fabrik_name = "/home/aaron/projects/gtfsfabrik/testing_fabriks/test";
    let _ = desired_fabrik_name;
}

#[test]
fn init_without_path_is_refused() {
    let cmd = Commands::Init {
        path: None,
        gtfs: None,
        osm: None,
        place: None,
        geoscope: None,
        ridership: None,
        usegit: true,
    };
    let res = run_command(cmd);
    assert!(matches!(
        res,
        Err(gtfsfabrik::errors::FabrikCommandError::InitError(gtfsfabrik::errors::InitError::NoPathProvided))
    ));
}

#[test]
fn init_with_path_gives_options() {
    let cmd = Commands::Init {
        path: Some(String::from("/tmp/plant")),
        gtfs: Some(vec![String::from("a.zip")]),
        osm: None,
        place: Some(String::from("Chicago")),
        geoscope: Some(gtfsfabrik::commands::GeoScope::Msa),
        ridership: None,
        usegit: false,
    };
    let opts = run_command(cmd).unwrap().unwrap();
    assert_eq!(opts.path, "/tmp/plant");
    assert_eq!(opts.geoscope, Some(String::from("msa")));
    assert_eq!(opts.gtfs, Some(vec![String::from("a.zip")]));
    assert_eq!(opts.place, Some(String::from("Chicago")));
    assert!(!opts.usegit);
}

#[test]
fn unimplemented_command_is_refused() {
    assert!(matches!(
        run_command(Commands::Summary),
        Err(gtfsfabrik::errors::FabrikCommandError::CommandNotImplemented)
    ));
}

#[test]
fn interactive_command_runs() {
    let cmd = Commands::Interactive { use_semicolons: true, scenario: String::from("base") };
    assert!(matches!(run_command(cmd), Ok(None)));
}

#[test]
fn layout_of_new_fabrik() {
    let layout = fabrik_layout("/tmp/plant");
    assert_eq!(layout.logs_dir, "/tmp/plant/.logs");
    assert_eq!(layout.log_files.len(), 5);
    assert_eq!(layout.log_files[0], "/tmp/plant/.logs/info.log");
    assert_eq!(layout.log_files[4], "/tmp/plant/.logs/command_history.log");
    assert_eq!(layout.fabrik_dir, "/tmp/plant/fabrik");
    assert_eq!(layout.subdirs[0], "/tmp/plant/fabrik/data");
    assert_eq!(layout.subdirs[4], "/tmp/plant/fabrik/scenarios");
    assert_eq!(layout.haupt_file, "/tmp/plant/fabrik/fabrik.toml");
}

#[test]
fn geoscope_names_checked() {
    let place = Some(String::from("Chicago, IL, USA"));
    assert!(check_geoscope(&None, &None).is_ok());
    assert!(check_geoscope(&None, &place).is_ok());
    assert!(check_geoscope(&Some(String::from("county")), &place).is_ok());
    assert!(matches!(
        check_geoscope(&Some(String::from("planet")), &place),
        Err(gtfsfabrik::errors::InitError::InvalidGeoScope)
    ));
}

#[test]
fn geoscope_requires_place() {
    assert!(matches!(
        check_geoscope(&Some(String::from("place")), &None),
        Err(gtfsfabrik::errors::InitError::GeoScopeWithoutPlace)
    ));
    assert!(matches!(
        check_geoscope(&Some(String::from("planet")), &None),
        Err(gtfsfabrik::errors::InitError::InvalidGeoScope)
    ));
}

#[test]
fn success_message_names_path() {
    assert_eq!(
        gtfsfabrik::commands::init_success_message("/tmp/x"),
        "Successfully created a new fabrik at /tmp/x"
    );
}
