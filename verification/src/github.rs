//! Release notes on GitHub: from a repository URL to the repository, the
//! tags to look up and the request to make, and from the answer to the notes.

use crate::release::Release;
use crate::text::chars_of;
use vstd::prelude::*;

verus! {

/// A repository on GitHub.
#[derive(Debug, Clone, PartialEq, Eq)]
pub struct GitHubRepo {
    pub owner: String,
    pub repo: String,
}

/// Who published a release.
#[derive(Debug, Clone, PartialEq, Eq)]
pub struct GitHubAuthor {
    pub login: String,
    pub id: u64,
    pub avatar_url: String,
    pub html_url: String,
    pub kind: Option<String>,
}

/// A release as GitHub describes it.
#[derive(Debug, Clone, PartialEq, Eq)]
pub struct GitHubRelease {
    pub url: String,
    pub html_url: String,
    pub id: u64,
    pub tag_name: String,
    pub name: String,
    pub body: Option<String>,
    pub draft: bool,
    pub prerelease: bool,
    pub created_at: String,
    pub published_at: String,
    pub author: GitHubAuthor,
}

/// Why no release notes could be had.
#[derive(Debug, Clone, Copy, PartialEq, Eq)]
pub enum NotesError {
    /// The repository URL is no URL, or names no owner and repository.
    InvalidUrl,
    /// The repository is not on GitHub.
    UnsupportedHost,
    /// No tag tried names a release.
    NotFound,
}

/// The parts of a URL that matter here: its host, if it has one, and the
/// segments of its path, if it can have any.
#[derive(Debug, Clone, PartialEq, Eq)]
pub struct UrlParts {
    pub host: Option<String>,
    pub segments: Option<Vec<String>>,
}

/// The parts of a URL as plain text.
pub struct UrlPartsView {
    pub host: Option<Seq<char>>,
    pub segments: Option<Seq<Seq<char>>>,
}

impl View for UrlParts {
    type V = UrlPartsView;

    open spec fn view(&self) -> UrlPartsView {
        UrlPartsView {
            host: match self.host {
                Some(h) => Some(h@),
                None => None,
            },
            segments: match self.segments {
                Some(s) => Some(s@.map_values(|x: String| x@)),
                None => None,
            },
        }
    }
}

/// The view of what parsing gave.
pub open spec fn parts_view(parts: Option<UrlParts>) -> Option<UrlPartsView> {
    match parts {
        Some(p) => Some(p@),
        None => None,
    }
}

/// Why the URL parser refuses a string.
#[verifier::external_type_specification]
#[verifier::external_body]
pub struct ExParseError(url::ParseError);

/// What the URL parser makes of `s`: nothing where `s` is no absolute URL,
/// else its host and path segments.
pub uninterp spec fn url_parts(s: Seq<char>) -> Option<UrlPartsView>;

/// The view of what the URL parser gave.
pub open spec fn parsed_view(parsed: Result<UrlParts, url::ParseError>) -> Option<UrlPartsView> {
    match parsed {
        Ok(p) => Some(p@),
        Err(_) => None,
    }
}

/// Parses `s` with `url::Url::parse` and reads the result's host with
/// `Url::host_str` and its path with `Url::path_segments`. The contract only
/// names the outcome: it is fixed by the text of `s`.
#[verifier::external_body]
fn parse_url(s: &str) -> (r: Result<UrlParts, url::ParseError>)
    ensures
        parsed_view(r) == url_parts(s@),
{
    let url = url::Url::parse(s)?;
    Ok(
        UrlParts {
            host: url.host_str().map(|h| h.to_string()),
            segments: url.path_segments().map(|p| p.map(|x| x.to_string()).collect()),
        },
    )
}

/// The parts of `s` as a URL, if it is one.
fn url_parts_of(s: &str) -> (r: Option<UrlParts>)
    ensures
        parts_view(r) == url_parts(s@),
{
    match parse_url(s) {
        Ok(parts) => Some(parts),
        Err(_) => None,
    }
}

/// The host under which GitHub serves repositories.
pub open spec fn github_host() -> Seq<char> {
    "github.com"@
}

/// Whether `s` ends in `.git`.
pub open spec fn has_git_suffix(s: Seq<char>) -> bool {
    s.len() >= 4 && s.subrange(s.len() - 4, s.len() as int) == seq!['.', 'g', 'i', 't']
}

/// `s` without one trailing `.git`.
pub open spec fn strip_git(s: Seq<char>) -> Seq<char> {
    if has_git_suffix(s) {
        s.take(s.len() - 4)
    } else {
        s
    }
}

/// Whether the parts are those of a URL on GitHub.
pub open spec fn spec_is_github(parts: Option<UrlPartsView>) -> bool {
    parts matches Some(p) && p.host == Some(github_host())
}

/// Owner and repository that the parts of a URL name, or why they name
/// none. The first two path segments are owner and repository; neither may
/// be empty, the repository after one trailing `.git` is taken off.
pub open spec fn spec_repo(parts: Option<UrlPartsView>) -> Result<(Seq<char>, Seq<char>), NotesError> {
    match parts {
        None => Err(NotesError::InvalidUrl),
        Some(p) => if p.host != Some(github_host()) {
            Err(NotesError::UnsupportedHost)
        } else {
            match p.segments {
                None => Err(NotesError::InvalidUrl),
                Some(segments) => if segments.len() < 2 || segments[0].len() == 0 || strip_git(
                    segments[1],
                ).len() == 0 {
                    Err(NotesError::InvalidUrl)
                } else {
                    Ok((segments[0], strip_git(segments[1])))
                },
            }
        },
    }
}

/// Owner and repository of a result, as text.
pub open spec fn repo_view(r: Result<GitHubRepo, NotesError>) -> Result<
    (Seq<char>, Seq<char>),
    NotesError,
> {
    match r {
        Ok(repo) => Ok((repo.owner@, repo.repo@)),
        Err(e) => Err(e),
    }
}

/// `name` without one trailing `.git`.
pub fn strip_git_suffix(name: &str) -> (r: String)
    ensures
        r@ == strip_git(name@),
{
    let chars = chars_of(name);
    let n = chars.len();
    if n >= 4 && chars[n - 4] == '.' && chars[n - 3] == 'g' && chars[n - 2] == 'i' && chars[n - 1]
        == 't' {
        assert(name@.subrange(n - 4, n as int) =~= seq!['.', 'g', 'i', 't']);
        String::from_str(name.substring_char(0, n - 4))
    } else {
        proof {
            if n >= 4 {
                let tail = name@.subrange(n - 4, n as int);
                assert(tail[0] == name@[n - 4]);
                assert(tail[1] == name@[n - 3]);
                assert(tail[2] == name@[n - 2]);
                assert(tail[3] == name@[n - 1]);
            }
        }
        String::from_str(name)
    }
}

/// Whether the parts are those of a URL on GitHub.
pub fn is_github(parts: &Option<UrlParts>) -> (r: bool)
    ensures
        r == spec_is_github(parts_view(*parts)),
{
    match parts {
        Some(p) => match &p.host {
            Some(host) => *host == String::from_str("github.com"),
            None => false,
        },
        None => false,
    }
}

/// Whether `url_str` is a URL on GitHub.
pub fn is_github_url(url_str: &str) -> (r: bool)
    ensures
        r == spec_is_github(url_parts(url_str@)),
{
    let parts = url_parts_of(url_str);
    is_github(&parts)
}

impl GitHubRepo {
    /// The repository that the parts of a URL name.
    pub fn from_url_parts(parts: Option<UrlParts>) -> (r: Result<GitHubRepo, NotesError>)
        ensures
            repo_view(r) == spec_repo(parts_view(parts)),
    {
        if !is_github(&parts) {
            return match parts {
                None => Err(NotesError::InvalidUrl),
                Some(_) => Err(NotesError::UnsupportedHost),
            };
        }
        let p = match parts {
            Some(p) => p,
            None => { return Err(NotesError::InvalidUrl); },
        };
        let segments = match p.segments {
            Some(s) => s,
            None => { return Err(NotesError::InvalidUrl); },
        };
        if segments.len() < 2 {
            return Err(NotesError::InvalidUrl);
        }
        assert(p@.segments->0[0] == segments@[0]@);
        assert(p@.segments->0[1] == segments@[1]@);
        let owner = segments[0].clone();
        if owner.as_str().unicode_len() == 0 {
            return Err(NotesError::InvalidUrl);
        }
        let repo = strip_git_suffix(segments[1].as_str());
        if repo.as_str().unicode_len() == 0 {
            return Err(NotesError::InvalidUrl);
        }
        Ok(GitHubRepo { owner, repo })
    }

    /// The repository that a URL names.
    pub fn from_github_url(url_str: &str) -> (r: Result<GitHubRepo, NotesError>)
        ensures
            repo_view(r) == spec_repo(url_parts(url_str@)),
    {
        GitHubRepo::from_url_parts(url_parts_of(url_str))
    }
}

/// The tags under which the release of `version` may be found, in the order
/// in which they are tried: the version itself, then the version after `v`.
pub open spec fn spec_tags(version: Seq<char>) -> Seq<Seq<char>> {
    seq![version, seq!['v'] + version]
}

/// What to do next in the search for a release.
#[derive(Debug, Clone, PartialEq, Eq)]
pub enum LookupAction {
    /// Ask for the release with this tag.
    Fetch(String),
    /// Stop: there is no release.
    GiveUp(NotesError),
}

/// What to do after `failed` lookups have failed: try the next tag, or give
/// up with `NotFound` once none is left.
pub open spec fn spec_lookup(version: Seq<char>, failed: nat) -> Result<Seq<char>, NotesError> {
    if failed < spec_tags(version).len() {
        Ok(spec_tags(version)[failed as int])
    } else {
        Err(NotesError::NotFound)
    }
}

/// The view of an action.
pub open spec fn action_view(action: LookupAction) -> Result<Seq<char>, NotesError> {
    match action {
        LookupAction::Fetch(tag) => Ok(tag@),
        LookupAction::GiveUp(e) => Err(e),
    }
}

/// The search for the release of one version: which tags have failed so far.
/// A lookup that succeeds ends the search; one that fails moves it on.
pub struct TagLookup {
    version: String,
    failed: usize,
}

impl TagLookup {
    /// The version searched for.
    pub closed spec fn spec_version(&self) -> Seq<char> {
        self.version@
    }

    /// How many lookups have failed.
    pub closed spec fn spec_failed(&self) -> nat {
        self.failed as nat
    }

    /// A search in which nothing was tried yet.
    pub fn new(version: &str) -> (r: TagLookup)
        ensures
            r.spec_version() == version@,
            r.spec_failed() == 0,
    {
        TagLookup { version: String::from_str(version), failed: 0 }
    }

    /// What to do next.
    pub fn next_action(&self) -> (r: LookupAction)
        ensures
            action_view(r) == spec_lookup(self.spec_version(), self.spec_failed()),
    {
        if self.failed == 0 {
            LookupAction::Fetch(self.version.clone())
        } else if self.failed == 1 {
            let mut tag = String::from_str("v");
            tag.append(self.version.as_str());
            proof {
                reveal_strlit("v");
                assert("v"@ =~= seq!['v']);
            }
            LookupAction::Fetch(tag)
        } else {
            LookupAction::GiveUp(NotesError::NotFound)
        }
    }

    /// Takes note that the lookup of the tag tried last has failed.
    pub fn record_failure(&mut self)
        ensures
            final(self).spec_version() == old(self).spec_version(),
            final(self).spec_failed() == if old(self).spec_failed() < 2 {
                old(self).spec_failed() + 1
            } else {
                old(self).spec_failed()
            },
    {
        if self.failed < 2 {
            self.failed = self.failed + 1;
        }
    }
}

/// The address that describes the release of `owner`'s `repo` tagged `tag`.
pub open spec fn spec_release_url(owner: Seq<char>, repo: Seq<char>, tag: Seq<char>) -> Seq<char> {
    "https://api.github.com/repos/"@ + owner + seq!['/'] + repo + "/releases/tags/"@ + tag
}

/// The headers of a request, with the credential where there is one.
pub open spec fn spec_request_headers(token: Option<Seq<char>>) -> Seq<(Seq<char>, Seq<char>)> {
    let fixed = seq![
        ("User-Agent"@, "deputui-review/0.1.0"@),
        ("Accept"@, "application/vnd.github.v3+json"@),
    ];
    match token {
        Some(t) => fixed.push(("Authorization"@, "Bearer "@ + t)),
        None => fixed,
    }
}

/// The views of a list of headers.
pub open spec fn header_views(headers: Seq<(String, String)>) -> Seq<(Seq<char>, Seq<char>)> {
    headers.map_values(|h: (String, String)| (h.0@, h.1@))
}

/// The text shown where a release has no notes.
pub open spec fn empty_notes() -> Seq<char> {
    "Empty release notes"@
}

/// The notes of a release: its body, or the fixed text where the body is
/// absent or empty.
pub open spec fn spec_notes_text(body: Option<Seq<char>>) -> Seq<char> {
    match body {
        Some(text) => if text.len() > 0 {
            text
        } else {
            empty_notes()
        },
        None => empty_notes(),
    }
}

impl GitHubRepo {
    /// The address that describes the release tagged `tag`.
    pub fn release_url(&self, tag: &str) -> (r: String)
        ensures
            r@ == spec_release_url(self.owner@, self.repo@, tag@),
    {
        let mut url = String::from_str("https://api.github.com/repos/");
        url.append(self.owner.as_str());
        url.append("/");
        url.append(self.repo.as_str());
        url.append("/releases/tags/");
        url.append(tag);
        proof {
            reveal_strlit("/");
            assert("/"@ =~= seq!['/']);
        }
        url
    }
}

/// The headers of a request for a release; `token` is the access token,
/// where the user has given one.
pub fn request_headers(token: Option<&str>) -> (r: Vec<(String, String)>)
    ensures
        header_views(r@) == spec_request_headers(
            match token {
                Some(t) => Some(t@),
                None => None,
            },
        ),
{
    let mut headers: Vec<(String, String)> = Vec::new();
    headers.push((String::from_str("User-Agent"), String::from_str("deputui-review/0.1.0")));
    headers.push((String::from_str("Accept"), String::from_str("application/vnd.github.v3+json")));
    match token {
        Some(t) => {
            let mut value = String::from_str("Bearer ");
            value.append(t);
            headers.push((String::from_str("Authorization"), value));
            assert(header_views(headers@) =~= spec_request_headers(Some(t@)));
        },
        None => {
            assert(header_views(headers@) =~= spec_request_headers(None));
        },
    }
    headers
}

/// The release that an answer holds: the one read from its body, if the
/// status is 200 and the body could be read.
pub fn accept_response(status: u16, parsed: Option<GitHubRelease>) -> (r: Option<GitHubRelease>)
    ensures
        r == if status == 200 {
            parsed
        } else {
            None
        },
{
    if status == 200 {
        parsed
    } else {
        None
    }
}

/// The notes of a release.
pub fn notes_text(body: Option<String>) -> (r: String)
    ensures
        r@ == spec_notes_text(
            match body {
                Some(text) => Some(text@),
                None => None,
            },
        ),
{
    match body {
        Some(text) => {
            if text.as_str().unicode_len() > 0 {
                text
            } else {
                String::from_str("Empty release notes")
            }
        },
        None => String::from_str("Empty release notes"),
    }
}

impl NotesError {
    /// The error in words.
    pub fn message(&self) -> (r: String)
        ensures
            r@ == match *self {
                NotesError::InvalidUrl => "Invalid repository URL"@,
                NotesError::UnsupportedHost =>
                    "Only GitHub repositories are supported for release notes"@,
                NotesError::NotFound => "Failed to fetch release notes: No release found"@,
            },
    {
        match self {
            NotesError::InvalidUrl => String::from_str("Invalid repository URL"),
            NotesError::UnsupportedHost => String::from_str(
                "Only GitHub repositories are supported for release notes",
            ),
            NotesError::NotFound => String::from_str(
                "Failed to fetch release notes: No release found",
            ),
        }
    }
}

/// A release together with what is needed to fetch its notes.
pub struct ReleaseExt<'a>(pub &'a Release);

impl<'a> ReleaseExt<'a> {
    /// The repository that holds the notes of the release.
    pub fn repository(&self) -> (r: Result<GitHubRepo, NotesError>)
        ensures
            repo_view(r) == spec_repo(url_parts(self.0.repository_url@)),
    {
        GitHubRepo::from_github_url(self.0.repository_url.as_str())
    }

    /// The search for the release that holds the notes.
    pub fn lookup(&self) -> (r: TagLookup)
        ensures
            r.spec_version() == self.0.semver@,
            r.spec_failed() == 0,
    {
        TagLookup::new(self.0.semver.as_str())
    }
}

/// What the notes pane gets to show once the search has ended: the notes of
/// the release found, or the error in words.
pub fn notes_outcome(found: Result<GitHubRelease, NotesError>) -> (r: Result<String, String>)
    ensures
        match found {
            Ok(release) => r matches Ok(text) && text@ == spec_notes_text(
                match release.body {
                    Some(b) => Some(b@),
                    None => None,
                },
            ),
            Err(e) => r matches Err(m) && m@ == match e {
                NotesError::InvalidUrl => "Invalid repository URL"@,
                NotesError::UnsupportedHost =>
                    "Only GitHub repositories are supported for release notes"@,
                NotesError::NotFound => "Failed to fetch release notes: No release found"@,
            },
        },
{
    match found {
        Ok(release) => Ok(notes_text(release.body)),
        Err(e) => Err(e.message()),
    }
}

} // verus!
