//! Derives a local checkout location for a remote git repository from its
//! identifier (URL, scp-like or bare `host/path` form) and a root directory.

mod text;
mod identifier;
mod local_path;
mod repo;

pub use identifier::{
    classify_identifier, form_host, get_host_from_repo, get_host_from_repo_full, parse_identifier,
    resolve_host, strip_credentials, FormKind, RepoError, RepoForm,
};
pub use local_path::{build_local_repo_path, build_local_repo_path_with_home, RepoPath};
pub use repo::{commands_for, existing_repo_commands, repo_exists};
pub use text::{first_label, path_segments};
