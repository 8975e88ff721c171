//! Paths as the platform reads them: by their components.

use vstd::prelude::*;

verus! {

/// Whether `base` is a prefix of `path`, component by component, as
/// `std::path::Path::starts_with` finds it.
pub uninterp spec fn path_has_prefix(path: Seq<char>, base: Seq<char>) -> bool;

/// The number of components of `path`, as `std::path::Path::components`
/// yields them.
pub uninterp spec fn path_component_count(path: Seq<char>) -> nat;

/// The last component of `path`, if it is the name of a file or of a
/// directory, as `std::path::Path::file_name` gives it.
pub uninterp spec fn path_file_name(path: Seq<char>) -> Option<Seq<char>>;

/// The extension of the file name of `path`, if it has one, as
/// `std::path::Path::extension` gives it.
pub uninterp spec fn path_extension(path: Seq<char>) -> Option<Seq<char>>;

/// `std::path::Path::file_name`: the last component of `path`, if it is a
/// name. The contract gives the result its name and claims nothing else of
/// it.
#[verifier::external_body]
pub(crate) fn file_name_of(path: &str) -> (name: Option<String>)
    ensures
        match name {
            Some(text) => path_file_name(path@) == Some(text@),
            None => path_file_name(path@) is None,
        },
{
    std::path::Path::new(path).file_name().map(|name| name.to_string_lossy().into_owned())
}

/// `std::path::Path::extension`: the extension of the file name of `path`,
/// if it has one. The contract gives the result its name and claims nothing
/// else of it.
#[verifier::external_body]
pub(crate) fn extension_of(path: &str) -> (extension: Option<String>)
    ensures
        match extension {
            Some(text) => path_extension(path@) == Some(text@),
            None => path_extension(path@) is None,
        },
{
    std::path::Path::new(path).extension().map(|x| x.to_string_lossy().into_owned())
}

/// `std::path::Path::starts_with`: whether `base` is a prefix of `path`,
/// whole components only. The contract gives the result its name and claims
/// nothing else of it.
#[verifier::external_body]
pub(crate) fn path_starts_with(path: &str, base: &str) -> (r: bool)
    ensures
        r == path_has_prefix(path@, base@),
{
    std::path::Path::new(path).starts_with(base)
}

/// `std::path::Path::components`, counted. The contract gives the count its
/// name and claims nothing else of it.
#[verifier::external_body]
pub(crate) fn count_path_components(path: &str) -> (count: usize)
    ensures
        count == path_component_count(path@),
{
    std::path::Path::new(path).components().count()
}

} // verus!
