//! Taking path strings apart.
//!
//! The rules by which a path is cut into its parent, its file name, its
//! extension and its components belong to the `camino` crate. The library
//! only names what those functions return.
use vstd::prelude::*;

verus! {

/// What `camino::Utf8Path::parent` returns for the path `path`, as text.
pub uninterp spec fn camino_parent(path: Seq<char>) -> Option<Seq<char>>;

/// What `camino::Utf8Path::file_name` returns for the path `path`.
pub uninterp spec fn camino_file_name(path: Seq<char>) -> Option<Seq<char>>;

/// What `camino::Utf8Path::extension` returns for the path `path`.
pub uninterp spec fn camino_extension(path: Seq<char>) -> Option<Seq<char>>;

/// The text of each component that `camino::Utf8Path::components` yields for
/// the path `path`, in order.
pub uninterp spec fn camino_components(path: Seq<char>) -> Seq<Seq<char>>;

/// The text of the path that `camino::Utf8PathBuf::push` makes of the path
/// `base` and the path `tail`.
pub uninterp spec fn camino_joined(base: Seq<char>, tail: Seq<char>) -> Seq<char>;

/// The views of a list of strings.
pub open spec fn texts(strings: Seq<String>) -> Seq<Seq<char>> {
    strings.map_values(|string: String| string@)
}

/// Calls `camino::Utf8Path::parent`: the path without its final component,
/// and nothing where the path ends in a root or is empty. The contract only
/// names the result.
#[verifier::external_body]
pub(crate) fn path_parent(path: &str) -> (parent: Option<String>)
    ensures
        match parent {
            Some(parent) => camino_parent(path@) == Some(parent@),
            None => camino_parent(path@) is None,
        },
{
    match camino::Utf8Path::new(path).parent() {
        Some(parent) => Some(parent.as_str().to_string()),
        None => None,
    }
}

/// Calls `camino::Utf8Path::file_name`: the final component of the path,
/// and nothing where the path ends in `..` or has no component. The contract
/// only names the result.
#[verifier::external_body]
pub(crate) fn path_file_name(path: &str) -> (name: Option<String>)
    ensures
        match name {
            Some(name) => camino_file_name(path@) == Some(name@),
            None => camino_file_name(path@) is None,
        },
{
    match camino::Utf8Path::new(path).file_name() {
        Some(name) => Some(name.to_string()),
        None => None,
    }
}

/// Calls `camino::Utf8Path::extension`: the part of the file name after its
/// last dot, and nothing where there is no file name or no such dot. The
/// contract only names the result.
#[verifier::external_body]
pub(crate) fn path_extension(path: &str) -> (extension: Option<String>)
    ensures
        match extension {
            Some(extension) => camino_extension(path@) == Some(extension@),
            None => camino_extension(path@) is None,
        },
{
    match camino::Utf8Path::new(path).extension() {
        Some(extension) => Some(extension.to_string()),
        None => None,
    }
}

/// Calls `camino::Utf8Path::components` and takes the text of each
/// component with `camino::Utf8Component::as_str`. The contract only names
/// the result.
#[verifier::external_body]
pub(crate) fn path_components(path: &str) -> (components: Vec<String>)
    ensures
        texts(components@) == camino_components(path@),
{
    let mut components = Vec::new();
    for part in camino::Utf8Path::new(path).components() {
        components.push(part.as_str().to_string());
    }
    components
}

/// Calls `camino::Utf8PathBuf::push` on the path `base` with the path `tail`:
/// a relative tail extends the base, an absolute tail replaces it. The
/// contract only names the result.
#[verifier::external_body]
pub(crate) fn path_join(base: &str, tail: &str) -> (joined: String)
    ensures
        joined@ == camino_joined(base@, tail@),
{
    let mut buffer = camino::Utf8PathBuf::from(base);
    buffer.push(tail);
    buffer.into_string()
}

} // verus!
