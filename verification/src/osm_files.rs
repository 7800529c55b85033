use vstd::prelude::*;

use crate::errors::OSMError;
use crate::paths::{path_exists, path_extension, path_is_dir, spec_path_extension};
use crate::text::same_text;

verus! {

/// Judges an OSM file argument, given whether something exists at it and whether that
/// is a folder: it must be a file whose extension is `pbf`.
pub fn classify_osm(osm_arg: &str, exists: bool, is_dir: bool) -> (res: Result<(), OSMError>)
    ensures
        !exists ==> (res matches Err(OSMError::FileNotFound(p)) && p@ == osm_arg@),
        exists && is_dir ==> (res matches Err(OSMError::NotAFile(p)) && p@ == osm_arg@),
        exists && !is_dir ==> match spec_path_extension(osm_arg@) {
            Some(ext) => if ext == "pbf"@ {
                res is Ok
            } else {
                res matches Err(OSMError::NotAPbfFile(p)) && p@ == osm_arg@
            },
            None => res matches Err(OSMError::UnknownError(p)) && p@ == osm_arg@,
        },
{
    let input_path = String::from_str(osm_arg);
    if !exists {
        Err(OSMError::FileNotFound(input_path))
    } else if is_dir {
        Err(OSMError::NotAFile(input_path))
    } else {
        match path_extension(osm_arg) {
            Some(file_ext) => {
                if same_text(file_ext.as_str(), "pbf") {
                    Ok(())
                } else {
                    Err(OSMError::NotAPbfFile(input_path))
                }
            },
            None => Err(OSMError::UnknownError(input_path)),
        }
    }
}

/// Checks an OSM file argument on disk: it must exist, be a file, and have the
/// extension `pbf` (the file's content is not read).
pub fn validate_osm(osm_arg: &str) -> (res: Result<(), OSMError>)
    ensures
        res matches Err(OSMError::FileNotFound(p)) ==> p@ == osm_arg@,
        res matches Err(OSMError::NotAFile(p)) ==> p@ == osm_arg@,
        res matches Err(OSMError::NotAPbfFile(p)) ==> (p@ == osm_arg@ && (spec_path_extension(
            osm_arg@,
        ) matches Some(ext) && ext != "pbf"@)),
        res matches Err(OSMError::UnknownError(p)) ==> (p@ == osm_arg@
            && spec_path_extension(osm_arg@) is None),
        res is Ok ==> spec_path_extension(osm_arg@) == Some("pbf"@),
{
    let exists = path_exists(osm_arg);
    let is_dir = if exists {
        path_is_dir(osm_arg)
    } else {
        false
    };
    classify_osm(osm_arg, exists, is_dir)
}

} // verus!
