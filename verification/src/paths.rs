//! Where the documents of a team are kept, as paths below a root directory.

use crate::text::{optional_text, text_eq};
use vstd::prelude::*;
use vstd::string::*;

verus! {

/// The path that `std::path::Path::join` makes of the path `base` and the
/// path `segment`, by the rules of the platform's file names.
pub uninterp spec fn path_join(base: Seq<char>, segment: Seq<char>) -> Seq<char>;

/// Adjoins `segment` to `base` with `std::path::Path::join`.
///
/// Trusted: the result is taken to depend on the two texts alone, which is
/// all that the contract says of it. Both arguments are valid UTF-8, so the
/// joined path is too and turning it back into a `String` loses nothing.
#[verifier::external_body]
pub(crate) fn join_path(base: &str, segment: &str) -> (joined: String)
    ensures
        joined@ == path_join(base@, segment@),
{
    std::path::Path::new(base).join(segment).to_string_lossy().into_owned()
}

/// The name of the document `stem` of kind JSON: `stem` followed by `.json`.
pub open spec fn json_file_name(stem: Seq<char>) -> Seq<char> {
    stem + ".json"@
}

/// The file name under which the JSON document `stem` is kept.
pub fn json_file(stem: &str) -> (name: String)
    ensures
        name@ == json_file_name(stem@),
{
    stem.to_owned().concat(".json")
}

/// The document stem that a file name stands for: what precedes a final
/// `.json`, provided something does. Any other file is no JSON document.
pub open spec fn json_file_stem(file_name: Seq<char>) -> Option<Seq<char>> {
    if file_name.len() > 5 && file_name.subrange(file_name.len() - 5, file_name.len() as int)
        == ".json"@ {
        Some(file_name.subrange(0, file_name.len() - 5))
    } else {
        None
    }
}

/// The document stem that `file_name` stands for, where it names a JSON
/// document.
pub fn json_stem(file_name: &str) -> (stem: Option<String>)
    ensures
        optional_text(stem) == json_file_stem(file_name@),
{
    let length = file_name.unicode_len();
    if length <= 5 {
        return None;
    }
    let ending = file_name.substring_char(length - 5, length);
    if text_eq(ending, ".json") {
        Some(file_name.substring_char(0, length - 5).to_owned())
    } else {
        None
    }
}

/// A document's file name stands for the document's stem and no other,
/// whenever the stem is not empty.
pub proof fn lemma_json_stem_of_file(stem: Seq<char>)
    requires
        stem.len() > 0,
    ensures
        json_file_stem(json_file_name(stem)) == Some(stem),
{
    reveal_strlit(".json");
    let name = json_file_name(stem);
    assert(name.len() == stem.len() + 5);
    assert(name.subrange(name.len() - 5, name.len() as int) =~= ".json"@);
    assert(name.subrange(0, name.len() - 5) =~= stem);
}

/// The home directory of the user, from `dirs::home_dir`.
///
/// Trusted, and nothing is claimed of the answer: it depends on the
/// environment of the process. A home directory whose name is not valid
/// UTF-8 is reported as none.
#[verifier::external_body]
pub(crate) fn home_dir() -> (home: Option<String>) {
    match dirs::home_dir() {
        Some(path) => path.into_os_string().into_string().ok(),
        None => None,
    }
}

/// The directory `.codex/kind` in the home directory, or in the current
/// directory where there is no home directory.
pub open spec fn data_root(home: Option<Seq<char>>, kind: Seq<char>) -> Seq<char> {
    let base = match home {
        Some(home) => home,
        None => "."@,
    };
    path_join(path_join(base, ".codex"@), kind)
}

/// The directory `.codex/kind` for the given home directory.
fn data_root_in(home: &Option<String>, kind: &str) -> (root: String)
    ensures
        root@ == data_root(optional_text(*home), kind@),
{
    let dir = match home {
        Some(home) => join_path(home.as_str(), ".codex"),
        None => join_path(".", ".codex"),
    };
    join_path(dir.as_str(), kind)
}

/// The root directory of the teams for the given home directory.
pub fn teams_root_in(home: &Option<String>) -> (root: String)
    ensures
        root@ == data_root(optional_text(*home), "teams"@),
{
    data_root_in(home, "teams")
}

/// The root directory of the work queues for the given home directory.
pub fn tasks_root_in(home: &Option<String>) -> (root: String)
    ensures
        root@ == data_root(optional_text(*home), "tasks"@),
{
    data_root_in(home, "tasks")
}

/// The root directory of the teams for the user who runs the process.
pub fn default_teams_root() -> (root: String)
    ensures
        exists|home: Option<Seq<char>>| root@ == #[trigger] data_root(home, "teams"@),
{
    let home = home_dir();
    let root = teams_root_in(&home);
    assert(root@ == data_root(optional_text(home), "teams"@));
    root
}

/// The root directory of the work queues for the user who runs the process.
pub fn default_tasks_root() -> (root: String)
    ensures
        exists|home: Option<Seq<char>>| root@ == #[trigger] data_root(home, "tasks"@),
{
    let home = home_dir();
    let root = tasks_root_in(&home);
    assert(root@ == data_root(optional_text(home), "tasks"@));
    root
}

} // verus!
