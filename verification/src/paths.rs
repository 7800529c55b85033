use vstd::prelude::*;

verus! {

/// Names what `std::path::Path::extension` gives for a path written as text.
pub uninterp spec fn spec_path_extension(path: Seq<char>) -> Option<Seq<char>>;

/// The text of `std::path::Path::join` of a base path and a name, on Unix: an absolute
/// name (one that starts with `/`) replaces the base; otherwise the name follows the
/// base, after a `/` unless the base is empty or already ends with one.
pub open spec fn spec_path_join(base: Seq<char>, name: Seq<char>) -> Seq<char> {
    if name.len() > 0 && name[0] == '/' {
        name
    } else if base.len() == 0 || base.last() == '/' {
        base + name
    } else {
        base + seq!['/'] + name
    }
}

/// `Path::extension` of `path`, as text. The contract only names the result: the
/// extension of a path written as text depends on that text alone (and is valid text,
/// being part of it).
#[verifier::external_body]
pub(crate) fn path_extension(path: &str) -> (res: Option<String>)
    ensures
        match res {
            Some(e) => spec_path_extension(path@) == Some(e@),
            None => spec_path_extension(path@) is None,
        },
{
    match std::path::Path::new(path).extension() {
        Some(ext) => ext.to_str().map(String::from),
        None => None,
    }
}

/// `Path::join` of `base` and `name`, as text, on Unix.
pub(crate) fn path_join(base: &str, name: &str) -> (res: String)
    ensures
        res@ == spec_path_join(base@, name@),
{
    let name_len = name.unicode_len();
    if name_len > 0 && name.get_char(0) == '/' {
        return String::from_str(name);
    }
    let base_len = base.unicode_len();
    let mut out = String::from_str(base);
    if !(base_len == 0 || base.get_char(base_len - 1) == '/') {
        out.append("/");
        proof {
            reveal_strlit("/");
        }
    }
    out.append(name);
    out
}

/// `std::path::Path::exists` on a path written as text. What comes back depends on what
/// is on disk; nothing is stated of it.
#[verifier::external_body]
pub(crate) fn path_exists(path: &str) -> (res: bool) {
    std::path::Path::new(path).exists()
}

/// `std::path::Path::is_dir` on a path written as text. What comes back depends on what
/// is on disk; nothing is stated of it.
#[verifier::external_body]
pub(crate) fn path_is_dir(path: &str) -> (res: bool) {
    std::path::Path::new(path).is_dir()
}

} // verus!
