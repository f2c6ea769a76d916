//! The two roots: the home directory, and the repository below it.

use crate::error::SyncError;
use crate::path::{is_name, parse_text, FilePath, PathModel};
use vstd::prelude::*;

verus! {

/// `dirs_next::home_dir`: the current user's home directory as text, or
/// `None` where the environment names none or names one that is no valid
/// text. What comes back depends on the environment; nothing is promised.
#[verifier::external_body]
fn home_text() -> (home: Option<String>) {
    dirs_next::home_dir().and_then(|p| p.into_os_string().into_string().ok())
}

/// The name of the repository directory below the home root.
pub open spec fn dots_name() -> Seq<char> {
    seq!['d', 'o', 't', 's']
}

/// The home root, given what the environment said.
pub fn resolve_home(found: Option<String>) -> (result: Result<FilePath, SyncError>)
    ensures
        match found {
            Some(text) => result matches Ok(home) && home@ == parse_text(text@)
                && home@.well_formed(),
            None => result matches Err(SyncError::HomeUnresolved),
        },
{
    match found {
        Some(text) => Ok(FilePath::parse(text.as_str())),
        None => Err(SyncError::HomeUnresolved),
    }
}

/// The repository root that belongs to a home root.
pub open spec fn dots_dir_of(home: PathModel) -> PathModel {
    home.child(dots_name())
}

/// The repository root is never the home root itself, and it is well-formed
/// where the home root is.
pub proof fn law_roots_differ(home: PathModel)
    ensures
        dots_dir_of(home) != home,
        home.well_formed() ==> dots_dir_of(home).well_formed(),
{
    assert(dots_dir_of(home).parts.len() == home.parts.len() + 1);
    assert(is_name(dots_name())) by {
        assert(dots_name().len() == 4);
    }
    if home.well_formed() {
        assert forall|i: int| 0 <= i < dots_dir_of(home).parts.len() implies is_name(
            #[trigger] dots_dir_of(home).parts[i],
        ) by {
            if i < home.parts.len() {
                assert(dots_dir_of(home).parts[i] == home.parts[i]);
            }
        }
    }
}

/// The repository root below `home`.
pub fn dots_dir_in(home: &FilePath) -> (dots: FilePath)
    ensures
        dots@ == dots_dir_of(home@),
{
    proof {
        reveal_strlit("dots");
        assert("dots"@ =~= dots_name());
    }
    let name = "dots".to_owned();
    home.child(&name)
}

/// The current user's home root. It fails in one way only: the home
/// directory cannot be determined.
pub fn get_home_dir() -> (result: Result<FilePath, SyncError>)
    ensures
        result matches Ok(home) ==> home@.well_formed(),
        result matches Err(e) ==> e is HomeUnresolved,
{
    resolve_home(home_text())
}

/// The repository root of the current user: the directory `dots` directly
/// below the home root. It fails in one way only: the home directory cannot
/// be determined.
pub fn get_dots_dir() -> (result: Result<FilePath, SyncError>)
    ensures
        result matches Ok(dots) ==> dots@.well_formed() && dots@.parts.len() > 0
            && dots@.parts.last() == dots_name(),
        result matches Err(e) ==> e is HomeUnresolved,
{
    match get_home_dir() {
        Ok(home) => {
            proof {
                law_roots_differ(home@);
            }
            Ok(dots_dir_in(&home))
        },
        Err(e) => Err(e),
    }
}

} // verus!
