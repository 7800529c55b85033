use vstd::prelude::*;

use crate::errors::GtfsError;
use crate::text::same_text;

verus! {

/// What a GTFS argument turned out to be; each variant carries the path.
#[derive(Debug, Clone, PartialEq, Eq)]
pub enum GtfsInputType {
    ZipFile(String),
    UnzippedFolder(String),
    MultipleZips(String),
    MultipleFolders(String),
}

/// The files a GTFS feed must contain.
#[derive(Debug, Clone, Copy, PartialEq, Eq, Structural)]
pub enum RequiredGtfsFile {
    Agency,
    Stops,
    Routes,
    Trips,
    StopTimes,
    Calendar,
}

pub open spec fn required_file_name(f: RequiredGtfsFile) -> Seq<char> {
    match f {
        RequiredGtfsFile::Agency => "agency.txt"@,
        RequiredGtfsFile::Stops => "stops.txt"@,
        RequiredGtfsFile::Routes => "routes.txt"@,
        RequiredGtfsFile::Trips => "trips.txt"@,
        RequiredGtfsFile::StopTimes => "stop_times.txt"@,
        RequiredGtfsFile::Calendar => "calendar.txt"@,
    }
}

impl RequiredGtfsFile {
    /// The file's name in a feed.
    pub fn file_name(&self) -> (res: &'static str)
        ensures
            res@ == required_file_name(*self),
    {
        match self {
            RequiredGtfsFile::Agency => "agency.txt",
            RequiredGtfsFile::Stops => "stops.txt",
            RequiredGtfsFile::Routes => "routes.txt",
            RequiredGtfsFile::Trips => "trips.txt",
            RequiredGtfsFile::StopTimes => "stop_times.txt",
            RequiredGtfsFile::Calendar => "calendar.txt",
        }
    }
}

/// The pieces joined with `sep` between neighbours.
pub open spec fn joined(pieces: Seq<Seq<char>>, sep: Seq<char>) -> Seq<char>
    decreases pieces.len(),
{
    if pieces.len() == 0 {
        Seq::empty()
    } else if pieces.len() == 1 {
        pieces[0]
    } else {
        joined(pieces.drop_last(), sep) + sep + pieces.last()
    }
}

/// The names of the files, in order.
pub open spec fn file_names(files: Seq<RequiredGtfsFile>) -> Seq<Seq<char>> {
    files.map_values(|f: RequiredGtfsFile| required_file_name(f))
}

/// The names of the missing files, separated by ", ".
pub fn format_missing_gtfs_files(files: &Vec<RequiredGtfsFile>) -> (res: String)
    ensures
        res@ == joined(file_names(files@), ", "@),
{
    let mut res = String::new();
    let mut i: usize = 0;
    while i < files.len()
        invariant
            i <= files@.len(),
            res@ == joined(file_names(files@.take(i as int)), ", "@),
        decreases files@.len() - i,
    {
        proof {
            assert(file_names(files@.take(i + 1)).drop_last() =~= file_names(files@.take(i as int)));
            assert(file_names(files@.take(i + 1)).last() == required_file_name(files@[i as int]));
        }
        if i != 0 {
            res.append(", ");
        }
        res.append(files[i].file_name());
        proof {
            if i == 0 {
                assert(file_names(files@.take(1)) =~= seq![required_file_name(files@[0])]);
                assert(res@ =~= required_file_name(files@[0]));
            }
        }
        i = i + 1;
    }
    proof {
        assert(files@.take(i as int) =~= files@);
    }
    res
}

/// Every file a feed must have, in the order errors list them.
pub open spec fn all_required_files() -> Seq<RequiredGtfsFile> {
    seq![
        RequiredGtfsFile::Agency,
        RequiredGtfsFile::Stops,
        RequiredGtfsFile::Routes,
        RequiredGtfsFile::Trips,
        RequiredGtfsFile::StopTimes,
        RequiredGtfsFile::Calendar,
    ]
}

pub fn required_gtfs_files() -> (res: Vec<RequiredGtfsFile>)
    ensures
        res@ == all_required_files(),
        res@ == seq![
            RequiredGtfsFile::Agency,
            RequiredGtfsFile::Stops,
            RequiredGtfsFile::Routes,
            RequiredGtfsFile::Trips,
            RequiredGtfsFile::StopTimes,
            RequiredGtfsFile::Calendar,
        ],
{
    let mut v: Vec<RequiredGtfsFile> = Vec::new();
    v.push(RequiredGtfsFile::Agency);
    v.push(RequiredGtfsFile::Stops);
    v.push(RequiredGtfsFile::Routes);
    v.push(RequiredGtfsFile::Trips);
    v.push(RequiredGtfsFile::StopTimes);
    v.push(RequiredGtfsFile::Calendar);
    proof {
        assert(v@ =~= all_required_files());
    }
    v
}

/// Whether some name in `present` is `name`.
pub open spec fn names_contain(present: Seq<String>, name: Seq<char>) -> bool {
    exists|i: int| 0 <= i < present.len() && (#[trigger] present[i])@ == name
}

/// The required files, in order, whose names are not among `present`.
pub open spec fn missing_files(present: Seq<String>) -> Seq<RequiredGtfsFile> {
    all_required_files().filter(
        |f: RequiredGtfsFile| !names_contain(present, required_file_name(f)),
    )
}

fn contains_name(present: &Vec<String>, name: &str) -> (res: bool)
    ensures
        res == names_contain(present@, name@),
{
    let mut i: usize = 0;
    while i < present.len()
        invariant
            i <= present@.len(),
            forall|j: int| 0 <= j < i ==> (#[trigger] present@[j])@ != name@,
        decreases present@.len() - i,
    {
        if same_text(present[i].as_str(), name) {
            return true;
        }
        i = i + 1;
    }
    false
}

/// The required files that a feed lacks, given the names of the files it has: the
/// entries of a zip archive, or the required files found in a folder.
pub fn missing_required_files(present_files: &Vec<String>) -> (res: Vec<RequiredGtfsFile>)
    ensures
        res@ == missing_files(present_files@),
{
    let required = required_gtfs_files();
    let mut missing: Vec<RequiredGtfsFile> = Vec::new();
    let mut i: usize = 0;
    while i < required.len()
        invariant
            required@ == all_required_files(),
            i <= required@.len(),
            missing@ == required@.take(i as int).filter(
                |f: RequiredGtfsFile| !names_contain(present_files@, required_file_name(f)),
            ),
        decreases required@.len() - i,
    {
        proof {
            reveal_with_fuel(Seq::filter, 1);
            assert(required@.take(i + 1).drop_last() =~= required@.take(i as int));
        }
        let file = required[i];
        if !contains_name(present_files, file.file_name()) {
            missing.push(file);
        }
        i = i + 1;
    }
    proof {
        assert(required@.take(i as int) =~= required@);
    }
    missing
}

/// A feed lacks no required file exactly when it has `agency.txt`, `stops.txt`,
/// `routes.txt`, `trips.txt`, `stop_times.txt` and `calendar.txt`; each of these that it
/// lacks is among the missing files, and the missing files come in that order.
pub proof fn lemma_required_files_are_six(present: Seq<String>)
    ensures
        missing_files(present).len() == 0 <==> (names_contain(present, "agency.txt"@) && names_contain(
            present,
            "stops.txt"@,
        ) && names_contain(present, "routes.txt"@) && names_contain(present, "trips.txt"@) && names_contain(
            present,
            "stop_times.txt"@,
        ) && names_contain(present, "calendar.txt"@)),
        !names_contain(present, "agency.txt"@) ==> missing_files(present).contains(RequiredGtfsFile::Agency),
        !names_contain(present, "stops.txt"@) ==> missing_files(present).contains(RequiredGtfsFile::Stops),
        !names_contain(present, "routes.txt"@) ==> missing_files(present).contains(RequiredGtfsFile::Routes),
        !names_contain(present, "trips.txt"@) ==> missing_files(present).contains(RequiredGtfsFile::Trips),
        !names_contain(present, "stop_times.txt"@) ==> missing_files(present).contains(
            RequiredGtfsFile::StopTimes,
        ),
        !names_contain(present, "calendar.txt"@) ==> missing_files(present).contains(RequiredGtfsFile::Calendar),
        !names_contain(present, "agency.txt"@) ==> missing_files(present)[0] == RequiredGtfsFile::Agency,
{
    let s = all_required_files();
    s.filter_lemma(|f: RequiredGtfsFile| !names_contain(present, required_file_name(f)));
    assert(s[0] == RequiredGtfsFile::Agency);
    assert(s[1] == RequiredGtfsFile::Stops);
    assert(s[2] == RequiredGtfsFile::Routes);
    assert(s[3] == RequiredGtfsFile::Trips);
    assert(s[4] == RequiredGtfsFile::StopTimes);
    assert(s[5] == RequiredGtfsFile::Calendar);
    let m = missing_files(present);
    if m.len() > 0 {
        let f = m[0];
        assert(!names_contain(present, required_file_name(f)));
        match f {
            RequiredGtfsFile::Agency => assert(!names_contain(present, "agency.txt"@)),
            RequiredGtfsFile::Stops => assert(!names_contain(present, "stops.txt"@)),
            RequiredGtfsFile::Routes => assert(!names_contain(present, "routes.txt"@)),
            RequiredGtfsFile::Trips => assert(!names_contain(present, "trips.txt"@)),
            RequiredGtfsFile::StopTimes => assert(!names_contain(present, "stop_times.txt"@)),
            RequiredGtfsFile::Calendar => assert(!names_contain(present, "calendar.txt"@)),
        }
    }
    if !(names_contain(present, "agency.txt"@) && names_contain(present, "stops.txt"@) && names_contain(
        present,
        "routes.txt"@,
    ) && names_contain(present, "trips.txt"@) && names_contain(present, "stop_times.txt"@) && names_contain(
        present,
        "calendar.txt"@,
    )) {
        if !names_contain(present, "agency.txt"@) {
            assert(m.contains(s[0]));
        } else if !names_contain(present, "stops.txt"@) {
            assert(m.contains(s[1]));
        } else if !names_contain(present, "routes.txt"@) {
            assert(m.contains(s[2]));
        } else if !names_contain(present, "trips.txt"@) {
            assert(m.contains(s[3]));
        } else if !names_contain(present, "stop_times.txt"@) {
            assert(m.contains(s[4]));
        } else {
            assert(m.contains(s[5]));
        }
    }
    if !names_contain(present, "agency.txt"@) {
        reveal_with_fuel(Seq::filter, 7);
        assert(s.drop_last().drop_last().drop_last().drop_last().drop_last() =~= seq![RequiredGtfsFile::Agency]);
        assert(s.drop_last().drop_last().drop_last().drop_last().drop_last().drop_last() =~= Seq::<RequiredGtfsFile>::empty());
    }
}

/// Checks that a feed (zipped or unzipped, at `gtfs_zip_or_dir`) has every required
/// file, given the names of the files it has.
pub fn has_required_gtfs_files(gtfs_zip_or_dir: &str, present_files: &Vec<String>) -> (res: Result<
    (),
    GtfsError,
>)
    ensures
        missing_files(present_files@).len() == 0 <==> res is Ok,
        res matches Err(e) ==> e matches GtfsError::InvalidGTFS(p, missing) && p@
            == gtfs_zip_or_dir@ && missing@ == missing_files(present_files@),
        res is Ok <==> (names_contain(present_files@, "agency.txt"@) && names_contain(
            present_files@,
            "stops.txt"@,
        ) && names_contain(present_files@, "routes.txt"@) && names_contain(present_files@, "trips.txt"@)
            && names_contain(present_files@, "stop_times.txt"@) && names_contain(
            present_files@,
            "calendar.txt"@,
        )),
        !names_contain(present_files@, "stops.txt"@) ==> (res matches Err(GtfsError::InvalidGTFS(_, m))
            && m@.contains(RequiredGtfsFile::Stops)),
        !names_contain(present_files@, "agency.txt"@) ==> (res matches Err(GtfsError::InvalidGTFS(_, m))
            && m@.contains(RequiredGtfsFile::Agency)),
        !names_contain(present_files@, "routes.txt"@) ==> (res matches Err(GtfsError::InvalidGTFS(_, m))
            && m@.contains(RequiredGtfsFile::Routes)),
        !names_contain(present_files@, "trips.txt"@) ==> (res matches Err(GtfsError::InvalidGTFS(_, m))
            && m@.contains(RequiredGtfsFile::Trips)),
        !names_contain(present_files@, "stop_times.txt"@) ==> (res matches Err(GtfsError::InvalidGTFS(_, m))
            && m@.contains(RequiredGtfsFile::StopTimes)),
        !names_contain(present_files@, "calendar.txt"@) ==> (res matches Err(GtfsError::InvalidGTFS(_, m))
            && m@.contains(RequiredGtfsFile::Calendar)),
{
    proof {
        lemma_required_files_are_six(present_files@);
    }
    let missing = missing_required_files(present_files);
    if missing.len() == 0 {
        Ok(())
    } else {
        Err(GtfsError::InvalidGTFS(String::from_str(gtfs_zip_or_dir), missing))
    }
}

/// What opening a file as a zip archive gave.
#[derive(Debug, Clone, PartialEq, Eq)]
pub enum ZipProbe {
    /// The file could not be opened (the message says why).
    OpenFailed(String),
    NotAZip,
    Zip,
}

/// What is known of one entry of a folder.
#[derive(Debug, Clone, PartialEq, Eq)]
pub struct DirEntryFacts {
    pub file_name: String,
    /// A file that opens as a zip archive.
    pub is_zip_file: bool,
    /// A folder with `stops.txt` or `agency.txt` in it.
    pub is_gtfs_folder: bool,
}

/// What the file system says about a GTFS argument.
#[derive(Debug)]
pub enum PathFacts {
    Missing,
    File(ZipProbe),
    /// A folder's entries, or why they could not be listed.
    Dir(Result<Vec<DirEntryFacts>, String>),
    /// Exists but is neither a file nor a folder.
    Other,
}

pub open spec fn names_a_feed_file(e: DirEntryFacts) -> bool {
    e.file_name@ == "stops.txt"@ || e.file_name@ == "agency.txt"@
}

/// Decides what a GTFS argument is: a zip file; a folder that is itself a feed (it has
/// `stops.txt` or `agency.txt`); a folder of zip files; a folder of feed folders.
pub fn det_gtfs_input_type(path: &str, facts: &PathFacts) -> (res: Result<GtfsInputType, GtfsError>)
    ensures
        match facts {
            PathFacts::Missing => res matches Err(GtfsError::NotFound(p)) && p@ == path@,
            PathFacts::File(ZipProbe::OpenFailed(msg)) => res matches Err(GtfsError::IoError(m))
                && m@ == msg@,
            PathFacts::File(ZipProbe::NotAZip) => res matches Err(GtfsError::NotAZip(p)) && p@ == path@,
            PathFacts::File(ZipProbe::Zip) => res matches Ok(GtfsInputType::ZipFile(p)) && p@ == path@,
            PathFacts::Dir(Err(msg)) => res matches Err(GtfsError::IoError(m)) && m@ == msg@,
            PathFacts::Dir(Ok(entries)) => if exists|i: int|
                0 <= i < entries@.len() && names_a_feed_file(#[trigger] entries@[i]) {
                res matches Ok(GtfsInputType::UnzippedFolder(p)) && p@ == path@
            } else if exists|i: int| 0 <= i < entries@.len() && (#[trigger] entries@[i]).is_zip_file {
                res matches Ok(GtfsInputType::MultipleZips(p)) && p@ == path@
            } else if exists|i: int| 0 <= i < entries@.len() && (#[trigger] entries@[i]).is_gtfs_folder {
                res matches Ok(GtfsInputType::MultipleFolders(p)) && p@ == path@
            } else {
                res matches Err(GtfsError::Other(p)) && p@ == path@
            },
            PathFacts::Other => res matches Err(GtfsError::Other(p)) && p@ == path@,
        },
{
    match facts {
        PathFacts::Missing => Err(GtfsError::NotFound(String::from_str(path))),
        PathFacts::File(probe) => match probe {
            ZipProbe::OpenFailed(msg) => Err(GtfsError::IoError(msg.clone())),
            ZipProbe::NotAZip => Err(GtfsError::NotAZip(String::from_str(path))),
            ZipProbe::Zip => Ok(GtfsInputType::ZipFile(String::from_str(path))),
        },
        PathFacts::Dir(listing) => match listing {
            Err(msg) => Err(GtfsError::IoError(msg.clone())),
            Ok(contents) => {
                let mut is_single_agency_folder = false;
                let mut has_zips = false;
                let mut has_gtfs_subfolders = false;
                let mut i: usize = 0;
                while i < contents.len()
                    invariant
                        i <= contents@.len(),
                        is_single_agency_folder <==> exists|j: int|
                            0 <= j < i && names_a_feed_file(#[trigger] contents@[j]),
                        has_zips <==> exists|j: int| 0 <= j < i && (#[trigger] contents@[j]).is_zip_file,
                        has_gtfs_subfolders <==> exists|j: int|
                            0 <= j < i && (#[trigger] contents@[j]).is_gtfs_folder,
                    decreases contents@.len() - i,
                {
                    let entry = &contents[i];
                    if same_text(entry.file_name.as_str(), "stops.txt") || same_text(
                        entry.file_name.as_str(),
                        "agency.txt",
                    ) {
                        is_single_agency_folder = true;
                    }
                    if entry.is_zip_file {
                        has_zips = true;
                    }
                    if entry.is_gtfs_folder {
                        has_gtfs_subfolders = true;
                    }
                    i = i + 1;
                }
                if is_single_agency_folder {
                    Ok(GtfsInputType::UnzippedFolder(String::from_str(path)))
                } else if has_zips {
                    Ok(GtfsInputType::MultipleZips(String::from_str(path)))
                } else if has_gtfs_subfolders {
                    Ok(GtfsInputType::MultipleFolders(String::from_str(path)))
                } else {
                    Err(GtfsError::Other(String::from_str(path)))
                }
            },
        },
        PathFacts::Other => Err(GtfsError::Other(String::from_str(path))),
    }
}

} // verus!
