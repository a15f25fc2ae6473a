//! Assembling the local path of a repository: expanded root, host label,
//! path segments.

use vstd::prelude::*;
use vstd::string::*;
use crate::identifier::{
    form_host, host_of, identifier_form, invalid_identifier, is_invalid_for, parse_identifier,
    RepoError,
};
use crate::text::{
    chars_of, ends_with_git, lemma_segments, lemma_skip_run_from, path_segments, segments, skip_run,
    skip_run_from, substring, views,
};

verus! {

/// Relies on `dirs::home_dir`: the current user's home directory, if the
/// platform reports one; one that is not valid UTF-8 counts as none.
#[verifier::external_body]
fn home_directory() -> (r: Option<String>) {
    match dirs::home_dir() {
        Some(p) => p.into_os_string().into_string().ok(),
        None => None,
    }
}

/// A local repository path as the pieces pushed, in order, onto an empty
/// path: the expanded root (one or two pieces), the host label, then each
/// path segment.
#[derive(Debug)]
pub struct RepoPath {
    pub parts: Vec<String>,
}

impl View for RepoPath {
    type V = Seq<Seq<char>>;

    open spec fn view(&self) -> Seq<Seq<char>> {
        views(self.parts@)
    }
}

/// The root names the home directory (`~` or `~/...`).
pub open spec fn needs_home(root: Seq<char>) -> bool {
    root.len() > 0 && root[0] == '~'
}

/// What follows the leading `~`s and then `/`s of a root.
pub open spec fn root_rest(root: Seq<char>) -> Seq<char> {
    root.skip(skip_run_from(root, '/', skip_run_from(root, '~', 0)))
}

/// The pieces of the root: the home directory followed by the rest, if any,
/// for a `~` root; the root itself otherwise.
pub open spec fn expanded_root(root: Seq<char>, home: Seq<char>) -> Seq<Seq<char>> {
    if needs_home(root) {
        if root_rest(root).len() == 0 {
            seq![home]
        } else {
            seq![home, root_rest(root)]
        }
    } else {
        seq![root]
    }
}

/// The path segments of an identifier (none when it has no shape).
pub open spec fn segments_of(id: Seq<char>) -> Seq<Seq<char>> {
    match identifier_form(id) {
        Some((_, _, p)) => segments(p),
        None => seq![],
    }
}

pub open spec fn home_view(home: Option<Seq<char>>) -> Seq<char> {
    match home {
        Some(h) => h,
        None => seq![],
    }
}

pub open spec fn opt_view(s: Option<String>) -> Option<Seq<char>> {
    match s {
        Some(x) => Some(x@),
        None => None,
    }
}

/// `r` is what building the path of `id` under `root` gives when the home
/// directory is `home`: the home error first, then an invalid identifier,
/// else root pieces, host label and segments.
pub open spec fn path_outcome(
    root: Seq<char>,
    id: Seq<char>,
    full: bool,
    home: Option<Seq<char>>,
    r: Result<RepoPath, RepoError>,
) -> bool {
    if needs_home(root) && home is None {
        r matches Err(e) && e is HomeDirectoryUnavailable
    } else if host_of(id, full) is None {
        r matches Err(e) && is_invalid_for(e, id)
    } else {
        r matches Ok(p) && p@ == expanded_root(root, home_view(home)) + seq![host_of(id, full)->0]
            + segments_of(id)
    }
}

/// Building a path has no hidden state: two builds from the same root,
/// identifier, host mode and home directory give the same outcome.
pub proof fn lemma_build_deterministic(
    root: Seq<char>,
    id: Seq<char>,
    full: bool,
    home: Option<Seq<char>>,
    r1: Result<RepoPath, RepoError>,
    r2: Result<RepoPath, RepoError>,
)
    requires
        path_outcome(root, id, full, home, r1),
        path_outcome(root, id, full, home, r2),
    ensures
        r1 is Ok <==> r2 is Ok,
        r1 matches Ok(p1) ==> (r2 matches Ok(p2) && p1@ == p2@),
        r1 matches Err(e1) ==> (r2 matches Err(e2) && (e1 is HomeDirectoryUnavailable <==> e2 is HomeDirectoryUnavailable)
            && (is_invalid_for(e1, id) <==> is_invalid_for(e2, id))),
{
}

/// A built path has the root's pieces, one host piece and one piece per
/// path segment of the identifier; the host piece and the segments are never
/// empty, and given a non-empty root and home directory no piece is.
pub proof fn lemma_component_count(
    root: Seq<char>,
    id: Seq<char>,
    full: bool,
    home: Option<Seq<char>>,
    r: Result<RepoPath, RepoError>,
)
    requires
        path_outcome(root, id, full, home, r),
        r is Ok,
    ensures
        r->Ok_0@.len() == expanded_root(root, home_view(home)).len() + 1 + segments_of(id).len(),
        r->Ok_0@[expanded_root(root, home_view(home)).len() as int] == host_of(id, full)->0,
        forall|i: int|
            expanded_root(root, home_view(home)).len() <= i < r->Ok_0@.len() ==> #[trigger] r->Ok_0@[i].len() > 0,
        root.len() > 0 && home_view(home).len() > 0 ==> forall|i: int|
            0 <= i < r->Ok_0@.len() ==> #[trigger] r->Ok_0@[i].len() > 0,
{
    let base = expanded_root(root, home_view(home));
    let segs = segments_of(id);
    let all = r->Ok_0@;
    assert(all == base + seq![host_of(id, full)->0] + segs);
    match identifier_form(id) {
        Some((_, _, p)) => lemma_segments(p),
        None => {},
    }
    assert forall|i: int| base.len() <= i < all.len() implies #[trigger] all[i].len() > 0 by {
        if i > base.len() {
            assert(all[i] == segs[i - base.len() - 1]);
        }
    }
}

/// When the identifier has a path segment, the last piece of a built path
/// does not end with `.git`.
pub proof fn lemma_no_git_suffix(
    root: Seq<char>,
    id: Seq<char>,
    full: bool,
    home: Option<Seq<char>>,
    r: Result<RepoPath, RepoError>,
)
    requires
        path_outcome(root, id, full, home, r),
        r is Ok,
        segments_of(id).len() > 0,
    ensures
        !ends_with_git(r->Ok_0@.last()),
{
    let segs = segments_of(id);
    let all = r->Ok_0@;
    match identifier_form(id) {
        Some((_, _, p)) => lemma_segments(p),
        None => {},
    }
    assert(all.last() == segs.last());
}

/// The local path of `repo` under `root`, `home` standing for the home
/// directory, which only a root starting with `~` uses.
pub fn build_local_repo_path_with_home(
    root: &str,
    repo: &str,
    full_host: bool,
    home: Option<String>,
) -> (r: Result<RepoPath, RepoError>)
    ensures
        path_outcome(root@, repo@, full_host, opt_view(home), r),
{
    let rc = chars_of(root);
    let n = rc.len();
    let mut parts: Vec<String> = Vec::new();
    if n > 0 && rc[0] == '~' {
        match home {
            None => {
                return Err(RepoError::HomeDirectoryUnavailable);
            },
            Some(h) => {
                let a = skip_run(&rc, '~', 0);
                proof {
                    lemma_skip_run_from(root@, '~', 0);
                }
                let b = skip_run(&rc, '/', a);
                proof {
                    lemma_skip_run_from(root@, '/', a as int);
                }
                parts.push(h);
                if b < n {
                    let rest = substring(root, b, n);
                    assert(rest@ =~= root_rest(root@));
                    parts.push(rest);
                } else {
                    assert(root_rest(root@).len() == 0);
                }
            },
        }
    } else {
        parts.push(String::from_str(root));
    }
    assert(views(parts@) =~= expanded_root(root@, home_view(opt_view(home))));
    let f = match parse_identifier(repo) {
        Some(f) => f,
        None => {
            return Err(invalid_identifier(repo));
        },
    };
    let host = match form_host(&f, full_host) {
        Some(h) => h,
        None => {
            return Err(invalid_identifier(repo));
        },
    };
    let ghost before = parts@;
    parts.push(host);
    let mut segs = path_segments(f.path.as_str());
    let ghost tail = segs@;
    parts.append(&mut segs);
    assert(views(parts@) =~= views(before) + seq![host@] + views(tail)) by {
        assert(parts@ =~= before.push(host) + tail);
    }
    Ok(RepoPath { parts })
}

/// The local path of `repo` under `root`: the root (its leading `~` replaced
/// by the home directory), the host label (the full host when `full_host`),
/// then each path segment. The home directory is looked up only for a root
/// that starts with `~`.
pub fn build_local_repo_path(root: &str, repo: &str, full_host: bool) -> (r: Result<
    RepoPath,
    RepoError,
>)
    ensures
        exists|home: Option<Seq<char>>| path_outcome(root@, repo@, full_host, home, r),
        !needs_home(root@) ==> path_outcome(root@, repo@, full_host, None, r),
{
    let starts_with_tilde = root.unicode_len() > 0 && root.get_char(0) == '~';
    let home = if starts_with_tilde {
        home_directory()
    } else {
        None
    };
    build_local_repo_path_with_home(root, repo, full_host, home)
}

} // verus!
