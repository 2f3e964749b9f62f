//! File-system paths, held as text, joined and inspected by `std::path`.
use vstd::prelude::*;

verus! {

/// What `Path::join` gives for a base path and a path to adjoin.
pub uninterp spec fn spec_path_join(base: Seq<char>, rel: Seq<char>) -> Seq<char>;

/// What `Path::is_absolute` says of a path.
pub uninterp spec fn spec_path_is_absolute(p: Seq<char>) -> bool;

/// What `Path::file_name` gives for a path: its last component, if any.
pub uninterp spec fn spec_path_file_name(p: Seq<char>) -> Option<Seq<char>>;

/// Calls `Path::join`, which adjoins `rel` to `base`; as its documentation
/// says, an absolute `rel` replaces `base`. The joined text is named, not
/// spelled out.
#[verifier::external_body]
pub(crate) fn path_join(base: &str, rel: &str) -> (r: String)
    ensures
        r@ == spec_path_join(base@, rel@),
        spec_path_is_absolute(rel@) ==> r@ == rel@,
{
    std::path::Path::new(base).join(rel).to_string_lossy().into_owned()
}

/// Calls `Path::is_absolute`.
#[verifier::external_body]
pub(crate) fn path_is_absolute(p: &str) -> (r: bool)
    ensures
        r == spec_path_is_absolute(p@),
{
    std::path::Path::new(p).is_absolute()
}

/// Calls `Path::file_name`, keeping the name as text.
#[verifier::external_body]
pub(crate) fn path_file_name(p: &str) -> (r: Option<String>)
    ensures
        match r {
            Some(name) => spec_path_file_name(p@) == Some(name@),
            None => spec_path_file_name(p@) is None,
        },
{
    match std::path::Path::new(p).file_name() {
        Some(name) => Some(name.to_string_lossy().into_owned()),
        None => None,
    }
}

/// `rel` taken relative to `base` unless it is absolute.
pub open spec fn resolved_path(base: Seq<char>, rel: Seq<char>) -> Seq<char> {
    if spec_path_is_absolute(rel) {
        rel
    } else {
        spec_path_join(base, rel)
    }
}

/// `path` taken relative to the project directory unless it is absolute.
pub fn resolve_path(project_dir: &str, path: String) -> (r: String)
    ensures
        r@ == resolved_path(project_dir@, path@),
{
    if path_is_absolute(path.as_str()) {
        path
    } else {
        path_join(project_dir, path.as_str())
    }
}

/// A directory given on the command line, taken relative to the project
/// directory, or the project directory joined with `default` when none is
/// given.
pub fn resolve_dir(project_dir: &str, custom: &Option<String>, default: &str) -> (r: String)
    ensures
        r@ == match custom {
            Some(v) => resolved_path(project_dir@, v@),
            None => spec_path_join(project_dir@, default@),
        },
{
    match custom {
        Some(v) => {
            if path_is_absolute(v.as_str()) {
                crate::text::owned(v.as_str())
            } else {
                path_join(project_dir, v.as_str())
            }
        },
        None => path_join(project_dir, default),
    }
}

} // verus!
