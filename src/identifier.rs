//! Classification of a repository identifier and host resolution.

use vstd::prelude::*;
use vstd::string::*;
use crate::text::{
    chars_of, contains_char, find, find_char, find_from, first_label, label, lemma_find_at,
    lemma_find_from, substring,
};

verus! {

/// Host of `s` read as an absolute URL, when it is one and has a host.
pub uninterp spec fn url_host(s: Seq<char>) -> Option<Seq<char>>;

/// Path of `s` read as an absolute URL (query and fragment excluded).
pub uninterp spec fn url_path(s: Seq<char>) -> Seq<char>;

/// A character that may stand before the first `:` of text that parses as an
/// absolute URL: a scheme character, or a C0 control or space, which the
/// parser trims or skips.
pub open spec fn scheme_char(c: char) -> bool {
    ('a' <= c && c <= 'z') || ('A' <= c && c <= 'Z') || ('0' <= c && c <= '9') || c == '+' || c
        == '-' || c == '.' || (c as u32) <= 32
}

/// A necessary condition for `s` to parse as an absolute URL: a `:`, and
/// nothing but scheme characters before the first one.
pub open spec fn may_be_absolute_url(s: Seq<char>) -> bool {
    contains_char(s, ':') && forall|j: int| 0 <= j < find(s, ':') ==> scheme_char(#[trigger] s[j])
}

/// Relies on `url::Url::parse` with `Url::host_str` and `Url::path`: the host
/// and path of `s` read as an absolute URL, when it parses and has a host. The
/// parser fails unless the text before the first `:` is a scheme (an ASCII
/// letter, then letters, digits, `+`, `-`, `.`), leading C0 controls and
/// spaces trimmed and tabs and newlines skipped.
#[verifier::external_body]
fn url_host_and_path(s: &str) -> (r: Option<(String, String)>)
    ensures
        pair_view(r) == url_parts(s@),
        r matches Some(p) ==> url_host(s@) == Some(p.0@) && url_path(s@) == p.1@,
{
    match url::Url::parse(s) {
        Ok(u) => match u.host_str() {
            Some(h) => Some((h.to_string(), u.path().to_string())),
            None => None,
        },
        Err(_) => None,
    }
}

/// Which of the accepted shapes an identifier has.
#[derive(Clone, Copy, Debug, PartialEq, Eq, Structural)]
pub enum FormKind {
    /// An absolute URL with a host (`https://host/owner/repo.git`).
    Url,
    /// `user@host:path`.
    Scp,
    /// `host/path`, the host holding a `.`.
    Plain,
}

/// An identifier split into its shape, its full host and the text after the host.
#[derive(Debug)]
pub struct RepoForm {
    pub kind: FormKind,
    pub host: String,
    pub path: String,
}

impl View for RepoForm {
    type V = (FormKind, Seq<char>, Seq<char>);

    open spec fn view(&self) -> (FormKind, Seq<char>, Seq<char>) {
        (self.kind, self.host@, self.path@)
    }
}

pub open spec fn form_view(f: Option<RepoForm>) -> Option<(FormKind, Seq<char>, Seq<char>)> {
    match f {
        Some(x) => Some(x@),
        None => None,
    }
}

pub open spec fn pair_view(u: Option<(String, String)>) -> Option<(Seq<char>, Seq<char>)> {
    match u {
        Some(p) => Some((p.0@, p.1@)),
        None => None,
    }
}

pub open spec fn git_plus() -> Seq<char> {
    seq!['g', 'i', 't', '+']
}

/// `s` without a leading `git+`.
pub open spec fn strip_git_plus(s: Seq<char>) -> Seq<char> {
    if s.len() >= 4 && s.take(4) == git_plus() {
        s.skip(4)
    } else {
        s
    }
}

/// `user@host:path`: an `@` before the first `:`.
pub open spec fn scp_match(t: Seq<char>) -> bool {
    find(t, '@') < find(t, ':') && find(t, ':') < t.len()
}

/// The shape of `t` (already without `git+`), given what the URL parser made
/// of it: the URL form first, then the scp form, then the plain form.
pub open spec fn classify(t: Seq<char>, url: Option<(Seq<char>, Seq<char>)>) -> Option<
    (FormKind, Seq<char>, Seq<char>),
> {
    match url {
        Some((h, p)) => Some((FormKind::Url, h, p)),
        None => if scp_match(t) {
            Some((FormKind::Scp, t.subrange(find(t, '@') + 1, find(t, ':')), t.skip(find(t, ':') + 1)))
        } else if contains_char(t.take(find(t, '/')), '.') {
            Some(
                (
                    FormKind::Plain,
                    t.take(find(t, '/')),
                    if find(t, '/') < t.len() {
                        t.skip(find(t, '/') + 1)
                    } else {
                        seq![]
                    },
                ),
            )
        } else {
            None
        },
    }
}

/// Host and path of `t` read as an absolute URL; none unless `t` has the
/// scheme that such a URL needs.
pub open spec fn url_parts(t: Seq<char>) -> Option<(Seq<char>, Seq<char>)> {
    if may_be_absolute_url(t) {
        match url_host(t) {
            Some(h) => Some((h, url_path(t))),
            None => None,
        }
    } else {
        None
    }
}

/// The shape of a raw identifier.
pub open spec fn identifier_form(id: Seq<char>) -> Option<(FormKind, Seq<char>, Seq<char>)> {
    classify(strip_git_plus(id), url_parts(strip_git_plus(id)))
}

/// The host label of an identifier: the full host, or its first label; none
/// when no shape matches or the label asked for is empty.
pub open spec fn host_of(id: Seq<char>, full: bool) -> Option<Seq<char>> {
    match identifier_form(id) {
        Some((_, h, _)) => if h.len() == 0 {
            None
        } else if full {
            Some(h)
        } else if label(h).len() == 0 {
            None
        } else {
            Some(label(h))
        },
        None => None,
    }
}

/// Index of the last `c` in `s[lo..hi]`, or `lo - 1` when there is none.
pub open spec fn rfind_in(s: Seq<char>, c: char, lo: int, hi: int) -> int
    decreases hi - lo,
{
    if hi <= lo {
        lo - 1
    } else if s[hi - 1] == c {
        hi - 1
    } else {
        rfind_in(s, c, lo, hi - 1)
    }
}

/// Where the authority of `scheme://authority/...` starts.
pub open spec fn authority_start(s: Seq<char>) -> int {
    find(s, ':') + 3
}

pub open spec fn has_authority(s: Seq<char>) -> bool {
    find(s, ':') + 2 < s.len() && s[find(s, ':') + 1] == '/' && s[find(s, ':') + 2] == '/'
}

/// Where the authority ends: at the next `/`, or at the end.
pub open spec fn authority_end(s: Seq<char>) -> int {
    find_from(s, '/', authority_start(s))
}

/// The `@` that closes the credentials (`user:pass@`) of the authority.
pub open spec fn userinfo_end(s: Seq<char>) -> int {
    rfind_in(s, '@', authority_start(s), authority_end(s))
}

pub open spec fn has_userinfo(s: Seq<char>) -> bool {
    has_authority(s) && userinfo_end(s) >= authority_start(s)
}

/// `s` with the credentials of its authority taken out.
pub open spec fn sanitize(s: Seq<char>) -> Seq<char> {
    if has_userinfo(s) {
        s.take(authority_start(s)) + s.skip(userinfo_end(s) + 1)
    } else {
        s
    }
}

pub open spec fn invalid_message(id: Seq<char>) -> Seq<char> {
    "Invalid Git repository URL: "@ + sanitize(id)
}

/// Why a repository identifier or root could not be turned into a path.
#[derive(Debug)]
pub enum RepoError {
    /// The identifier has none of the accepted shapes, or no host; the
    /// message holds it without credentials.
    InvalidIdentifier(String),
    /// The root starts with `~` and no home directory is known.
    HomeDirectoryUnavailable,
}

pub open spec fn is_invalid_for(e: RepoError, id: Seq<char>) -> bool {
    e matches RepoError::InvalidIdentifier(m) && m@ == invalid_message(id)
}

impl RepoError {
    /// A line for the user.
    pub fn message(&self) -> (r: String)
        ensures
            self matches RepoError::InvalidIdentifier(m) ==> r@ == m@,
            self is HomeDirectoryUnavailable ==> r@ == "Couldn't find home directory"@,
    {
        match self {
            RepoError::InvalidIdentifier(m) => m.clone(),
            RepoError::HomeDirectoryUnavailable => String::from_str("Couldn't find home directory"),
        }
    }
}

/// An identifier of the URL form gets the host that the URL parser finds,
/// or its first label when that is not empty.
pub proof fn lemma_url_host(id: Seq<char>, host: Seq<char>, path: Seq<char>)
    requires
        url_parts(strip_git_plus(id)) == Some((host, path)),
        host.len() > 0,
    ensures
        host_of(id, true) == Some(host),
        label(host).len() > 0 ==> host_of(id, false) == Some(label(host)),
{
}

/// An identifier `user@host:path`, with neither `@` nor `:` in the user or
/// the host, gets `host` as its full host and the first label of `host`, when
/// not empty, as its short one.
pub proof fn lemma_scp_host(user: Seq<char>, host: Seq<char>, path: Seq<char>)
    requires
        !contains_char(user, '@'),
        !contains_char(user, ':'),
        !contains_char(host, '@'),
        !contains_char(host, ':'),
        host.len() > 0,
    ensures
        host_of(user + seq!['@'] + host + seq![':'] + path, true) == Some(host),
        label(host).len() > 0 ==> host_of(user + seq!['@'] + host + seq![':'] + path, false) == Some(
            label(host),
        ),
{
    let id = user + seq!['@'] + host + seq![':'] + path;
    lemma_find_from(user, '@', 0);
    lemma_find_from(user, ':', 0);
    lemma_find_from(host, '@', 0);
    lemma_find_from(host, ':', 0);
    let stripped = id.len() >= 4 && id.take(4) == git_plus();
    let u2 = if stripped {
        user.skip(4)
    } else {
        user
    };
    if stripped {
        if user.len() < 4 {
            assert(id.take(4)[user.len() as int] == '@');
            assert(git_plus()[user.len() as int] != '@');
        }
        assert(id.skip(4) =~= user.skip(4) + seq!['@'] + host + seq![':'] + path);
    }
    let t = strip_git_plus(id);
    assert(t =~= u2 + seq!['@'] + host + seq![':'] + path);
    let k = u2.len() as int;
    let colon = k + 1 + host.len();
    assert forall|j: int| 0 <= j < k implies t[j] != '@' && t[j] != ':' by {
        assert(t[j] == u2[j]);
        if stripped {
            assert(u2[j] == user[j + 4]);
        }
    }
    assert forall|j: int| k < j < colon implies t[j] != ':' by {
        assert(t[j] == host[j - k - 1]);
    }
    lemma_find_at(t, '@', 0, k);
    lemma_find_at(t, ':', 0, colon);
    assert(!scheme_char(t[k]));
    assert(!may_be_absolute_url(t));
    assert(t.subrange(k + 1, colon) =~= host);
}

/// An identifier `host/rest` with no scheme, whose host holds a `.` and none
/// of `/`, `:`, `@`, and does not start with `git+`, and whose rest holds no
/// `@`, gets `host` as its full host and its first label, when not empty, as
/// its short one.
pub proof fn lemma_plain_host(host: Seq<char>, rest: Seq<char>)
    requires
        contains_char(host, '.'),
        !contains_char(host, '/'),
        !contains_char(host, ':'),
        !contains_char(host, '@'),
        !contains_char(rest, '@'),
        !(host.len() >= 4 && host.take(4) == git_plus()),
    ensures
        host_of(host + seq!['/'] + rest, true) == Some(host),
        label(host).len() > 0 ==> host_of(host + seq!['/'] + rest, false) == Some(label(host)),
{
    let t = host + seq!['/'] + rest;
    let hl = host.len() as int;
    lemma_find_from(host, '/', 0);
    lemma_find_from(host, ':', 0);
    lemma_find_from(host, '@', 0);
    lemma_find_from(rest, '@', 0);
    if t.len() >= 4 && t.take(4) == git_plus() {
        if hl >= 4 {
            assert(host.take(4) =~= t.take(4));
        } else {
            assert(t.take(4)[hl] == '/');
            assert(git_plus()[hl] != '/');
        }
    }
    assert(strip_git_plus(t) == t);
    assert forall|j: int| 0 <= j < hl implies t[j] != '/' && t[j] != ':' by {
        assert(t[j] == host[j]);
    }
    lemma_find_at(t, '/', 0, hl);
    assert forall|j: int| 0 <= j < t.len() implies t[j] != '@' by {
        if j < hl {
            assert(t[j] == host[j]);
        } else if j > hl {
            assert(t[j] == rest[j - hl - 1]);
        }
    }
    lemma_find_at(t, '@', 0, t.len() as int);
    lemma_find_from(t, ':', 0);
    if contains_char(t, ':') {
        assert(find(t, ':') > hl);
        assert(!scheme_char(t[hl]));
    }
    assert(!may_be_absolute_url(t));
    assert(t.take(hl) =~= host);
}

/// Taking the credentials out leaves none: the result has no `user:pass@`
/// part in its authority.
pub proof fn lemma_sanitize(s: Seq<char>)
    ensures
        !has_userinfo(sanitize(s)),
{
    if has_userinfo(s) {
        let c = find(s, ':');
        let a = c + 3;
        let e = authority_end(s);
        let u = userinfo_end(s);
        lemma_find_from(s, ':', 0);
        lemma_find_from(s, '/', a);
        lemma_rfind_in(s, '@', a, e);
        let m = s.take(a) + s.skip(u + 1);
        assert forall|j: int| 0 <= j < c implies m[j] != ':' by {
            assert(m[j] == s[j]);
        }
        assert(m[c] == s[c]);
        lemma_find_at(m, ':', 0, c);
        assert(m[c + 1] == s[c + 1] && m[c + 2] == s[c + 2]);
        let e2 = a + (e - u - 1);
        assert forall|j: int| a <= j < e2 implies m[j] != '/' && m[j] != '@' by {
            assert(m[j] == s[j - a + u + 1]);
        }
        if e2 < m.len() {
            assert(m[e2] == s[e]);
        }
        lemma_find_at(m, '/', a, e2);
        lemma_rfind_in(m, '@', a, e2);
        assert(m == sanitize(s));
    }
}

/// The message of an invalid identifier holds the identifier with the
/// credentials of its URL authority taken out, so that none are left in it.
pub proof fn lemma_message_without_credentials(id: Seq<char>, e: RepoError)
    requires
        is_invalid_for(e, id),
    ensures
        e matches RepoError::InvalidIdentifier(m) && m@ == "Invalid Git repository URL: "@ + sanitize(id),
        !has_userinfo(sanitize(id)),
        has_userinfo(id) ==> sanitize(id) == id.take(authority_start(id)) + id.skip(userinfo_end(id) + 1),
{
    lemma_sanitize(id);
}

pub proof fn lemma_rfind_in(s: Seq<char>, c: char, lo: int, hi: int)
    requires
        0 <= lo,
        hi <= s.len(),
    ensures
        lo - 1 <= rfind_in(s, c, lo, hi) < if hi > lo { hi } else { lo },
        rfind_in(s, c, lo, hi) >= lo ==> s[rfind_in(s, c, lo, hi)] == c,
        forall|j: int| rfind_in(s, c, lo, hi) < j < hi && lo <= j ==> s[j] != c,
    decreases hi - lo,
{
    if hi > lo && s[hi - 1] != c {
        lemma_rfind_in(s, c, lo, hi - 1);
    }
}

fn rfind_char(s: &Vec<char>, c: char, lo: usize, hi: usize) -> (r: Option<usize>)
    requires
        lo <= hi <= s@.len(),
    ensures
        r matches Some(k) ==> k as int == rfind_in(s@, c, lo as int, hi as int) && lo <= k < hi,
        r is None ==> rfind_in(s@, c, lo as int, hi as int) == lo - 1,
{
    let mut j = hi;
    while j > lo
        invariant
            lo <= j <= hi,
            hi <= s@.len(),
            rfind_in(s@, c, lo as int, j as int) == rfind_in(s@, c, lo as int, hi as int),
        decreases j,
    {
        if s[j - 1] == c {
            return Some(j - 1);
        }
        j = j - 1;
    }
    None
}

/// The identifier with the credentials of a URL authority (`user:pass@`)
/// taken out; anything else unchanged.
pub fn strip_credentials(id: &str) -> (r: String)
    ensures
        r@ == sanitize(id@),
{
    let cs = chars_of(id);
    let n = cs.len();
    let c = find_char(&cs, ':', 0);
    proof {
        lemma_find_from(id@, ':', 0);
    }
    if c < n && n - c > 2 && cs[c + 1] == '/' && cs[c + 2] == '/' {
        let a = c + 3;
        let e = find_char(&cs, '/', a);
        proof {
            lemma_find_from(id@, '/', a as int);
        }
        match rfind_char(&cs, '@', a, e) {
            Some(at) => {
                let mut r = substring(id, 0, a);
                r.append(id.substring_char(at + 1, n));
                r
            },
            None => String::from_str(id),
        }
    } else {
        String::from_str(id)
    }
}

pub(crate) fn invalid_identifier(id: &str) -> (e: RepoError)
    ensures
        is_invalid_for(e, id@),
{
    let mut m = String::from_str("Invalid Git repository URL: ");
    let s = strip_credentials(id);
    m.append(s.as_str());
    RepoError::InvalidIdentifier(m)
}

fn strip_git_plus_str(s: &str) -> (r: &str)
    ensures
        r@ == strip_git_plus(s@),
{
    let n = s.unicode_len();
    if n >= 4 && s.get_char(0) == 'g' && s.get_char(1) == 'i' && s.get_char(2) == 't'
        && s.get_char(3) == '+' {
        assert(s@.take(4) =~= git_plus());
        s.substring_char(4, n)
    } else {
        proof {
            if s@.len() >= 4 && s@.take(4) == git_plus() {
                assert(s@.take(4)[0] == 'g' && s@.take(4)[1] == 'i');
                assert(s@.take(4)[2] == 't' && s@.take(4)[3] == '+');
            }
        }
        s
    }
}

/// The shape of `t` (already without `git+`), given `url`, the host and path
/// that the URL parser found in `t`, if any.
pub fn classify_identifier(t: &str, url: Option<(String, String)>) -> (r: Option<RepoForm>)
    ensures
        form_view(r) == classify(t@, pair_view(url)),
{
    match url {
        Some((host, path)) => {
            return Some(RepoForm { kind: FormKind::Url, host, path });
        },
        None => {},
    }
    let cs = chars_of(t);
    let n = cs.len();
    let at = find_char(&cs, '@', 0);
    let colon = find_char(&cs, ':', 0);
    proof {
        lemma_find_from(t@, '@', 0);
        lemma_find_from(t@, ':', 0);
    }
    if at < colon && colon < n {
        let host = substring(t, at + 1, colon);
        let path = substring(t, colon + 1, n);
        assert(path@ =~= t@.skip(colon + 1));
        return Some(RepoForm { kind: FormKind::Scp, host, path });
    }
    let slash = find_char(&cs, '/', 0);
    proof {
        lemma_find_from(t@, '/', 0);
    }
    let first = substring(t, 0, slash);
    assert(first@ =~= t@.take(slash as int));
    let fc = chars_of(first.as_str());
    let dot = find_char(&fc, '.', 0);
    if dot < fc.len() {
        let path = if slash < n {
            let p = substring(t, slash + 1, n);
            assert(p@ =~= t@.skip(slash + 1));
            p
        } else {
            String::new()
        };
        Some(RepoForm { kind: FormKind::Plain, host: first, path })
    } else {
        None
    }
}

/// The shape of a raw identifier: a leading `git+` is dropped, then the URL,
/// scp and plain forms are tried in that order.
pub fn parse_identifier(repo: &str) -> (r: Option<RepoForm>)
    ensures
        form_view(r) == identifier_form(repo@),
{
    let t = strip_git_plus_str(repo);
    let url = url_host_and_path(t);
    classify_identifier(t, url)
}

/// The host label that a shape gives: its full host when `full`, else the
/// first `.`-delimited label; none when that label is empty.
pub fn form_host(f: &RepoForm, full: bool) -> (r: Option<String>)
    ensures
        r matches Some(h) ==> f.host@.len() > 0 && h@.len() > 0 && h@ == (if full {
            f.host@
        } else {
            label(f.host@)
        }),
        r is None ==> f.host@.len() == 0 || (!full && label(f.host@).len() == 0),
{
    if f.host.as_str().unicode_len() == 0 {
        None
    } else if full {
        Some(f.host.clone())
    } else {
        let l = first_label(f.host.as_str());
        if l.as_str().unicode_len() == 0 {
            None
        } else {
            Some(l)
        }
    }
}

/// The host of an identifier: the full host when `full`, else its first
/// `.`-delimited label.
pub fn resolve_host(repo: &str, full: bool) -> (r: Result<String, RepoError>)
    ensures
        match r {
            Ok(h) => host_of(repo@, full) == Some(h@),
            Err(e) => host_of(repo@, full) is None && is_invalid_for(e, repo@),
        },
{
    match parse_identifier(repo) {
        Some(f) => match form_host(&f, full) {
            Some(h) => Ok(h),
            None => Err(invalid_identifier(repo)),
        },
        None => Err(invalid_identifier(repo)),
    }
}

/// The short host label of an identifier (`github` for any form of a
/// `github.com` identifier).
pub fn get_host_from_repo(repo: &str) -> (r: Result<String, RepoError>)
    ensures
        match r {
            Ok(h) => host_of(repo@, false) == Some(h@),
            Err(e) => host_of(repo@, false) is None && is_invalid_for(e, repo@),
        },
{
    resolve_host(repo, false)
}

/// The full host domain of an identifier (`github.com`).
pub fn get_host_from_repo_full(repo: &str) -> (r: Result<String, RepoError>)
    ensures
        match r {
            Ok(h) => host_of(repo@, true) == Some(h@),
            Err(e) => host_of(repo@, true) is None && is_invalid_for(e, repo@),
        },
{
    resolve_host(repo, true)
}

} // verus!
