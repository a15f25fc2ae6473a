//! Deciding whether a checkout is present, and the shell commands shown for one.

use vstd::prelude::*;
use vstd::string::*;
use std::path::Path;

verus! {

#[verifier::external_type_specification]
#[verifier::external_body]
pub struct ExPath(Path);

/// Relies on `std::path::Path::display`: the path as text, with anything
/// that is not valid Unicode replaced.
#[verifier::external_body]
fn display_path(p: &Path) -> (r: String) {
    p.display().to_string()
}

/// Whether a checkout is present, given what the file system reports: the
/// path exists and its `.git` entry is a directory.
pub fn repo_exists(path_exists: bool, git_dir_is_dir: bool) -> (r: bool)
    ensures
        r == (path_exists && git_dir_is_dir),
{
    path_exists && git_dir_is_dir
}

pub open spec fn cd_line(path: Seq<char>) -> Seq<char> {
    "cd \""@ + path + "\""@
}

pub open spec fn pull_line(path: Seq<char>) -> Seq<char> {
    "git -C \""@ + path + "\" pull --ff-only"@
}

/// The commands shown for a checkout at `path`: the `cd` alone, or the `cd`
/// and a fast-forward pull on the next line.
pub open spec fn commands_text(path: Seq<char>, print_cd: bool) -> Seq<char> {
    if print_cd {
        cd_line(path)
    } else {
        cd_line(path) + "\n"@ + pull_line(path)
    }
}

/// The commands shown for a checkout whose path reads `path`.
pub fn commands_for(path: &str, print_cd: bool) -> (r: String)
    ensures
        r@ == commands_text(path@, print_cd),
{
    let mut r = String::from_str("cd \"");
    r.append(path);
    r.append("\"");
    if !print_cd {
        r.append("\n");
        r.append("git -C \"");
        r.append(path);
        r.append("\" pull --ff-only");
        assert(r@ =~= commands_text(path@, print_cd));
    } else {
        assert(r@ =~= commands_text(path@, print_cd));
    }
    r
}

/// The commands shown for an existing checkout at `local_path`: `cd "<path>"`,
/// followed, unless `print_cd`, by `git -C "<path>" pull --ff-only`.
pub fn existing_repo_commands(local_path: &Path, print_cd: bool) -> (r: String)
    ensures
        exists|shown: Seq<char>| r@ == commands_text(shown, print_cd),
{
    let shown = display_path(local_path);
    commands_for(shown.as_str(), print_cd)
}

} // verus!
