use deputui::github::{
    accept_response, is_github_url, notes_outcome, notes_text, request_headers, strip_git_suffix,
    GitHubAuthor, GitHubRelease, GitHubRepo, LookupAction, NotesError, ReleaseExt, TagLookup,
    UrlParts,
};
use deputui::release::Release;

fn release_with_body(body: Option<&str>) -> GitHubRelease {
    GitHubRelease {
        url: "https://api.github.com/repos/o/r/releases/1".to_string(),
        html_url: "https://github.com/o/r/releases/tag/v1.0.0".to_string(),
        id: 1,
        tag_name: "v1.0.0".to_string(),
        name: "1.0.0".to_string(),
        body: body.map(|b| b.to_string()),
        draft: false,
        prerelease: false,
        created_at: "2024-01-01T00:00:00Z".to_string(),
        published_at: "2024-01-02T00:00:00Z".to_string(),
        author: GitHubAuthor {
            login: "someone".to_string(),
            id: 2,
            avatar_url: "https://example.com/a.png".to_string(),
            html_url: "https://github.com/someone".to_string(),
            kind: Some("User".to_string()),
        },
    }
}

#[test]
fn test_parse_valid_github_urls() {
    let repo = GitHubRepo::from_github_url("https://github.com/rust-lang/rust.git").unwrap();
    assert_eq!(repo.owner, "rust-lang");
    assert_eq!(repo.repo, "rust");
}

#[test]
fn test_parse_invalid_github_urls() {
    let invalid_cases = vec![
        "https://foo.bar/repo",
        "https://github.com",
        "https://github.com/owner",
        "https://github.com//repo",
        "not-a-url",
        "",
        "https://gitlab.com/user/repo",
    ];

    for url in invalid_cases {
        assert!(GitHubRepo::from_github_url(url).is_err(), "Should fail for URL: {}", url);
    }
}

#[test]
fn each_error_has_an_input() {
    assert_eq!(GitHubRepo::from_github_url("not-a-url"), Err(NotesError::InvalidUrl));
    assert_eq!(GitHubRepo::from_github_url(""), Err(NotesError::InvalidUrl));
    assert_eq!(GitHubRepo::from_github_url("https://github.com"), Err(NotesError::InvalidUrl));
    assert_eq!(GitHubRepo::from_github_url("https://github.com/owner"), Err(NotesError::InvalidUrl));
    assert_eq!(GitHubRepo::from_github_url("https://github.com//repo"), Err(NotesError::InvalidUrl));
    assert_eq!(GitHubRepo::from_github_url("https://github.com/owner/"), Err(NotesError::InvalidUrl));
    assert_eq!(
        GitHubRepo::from_github_url("https://github.com/owner/.git"),
        Err(NotesError::InvalidUrl)
    );
    assert_eq!(
        GitHubRepo::from_github_url("https://gitlab.com/user/repo"),
        Err(NotesError::UnsupportedHost)
    );
    assert_eq!(
        GitHubRepo::from_github_url("https://foo.bar/repo"),
        Err(NotesError::UnsupportedHost)
    );
    assert_eq!(
        GitHubRepo::from_github_url("data:text/plain,HelloWorld"),
        Err(NotesError::UnsupportedHost)
    );
}

#[test]
fn url_is_really_parsed() {
    // Upper case in the host, a port, a query and further segments are the
    // parser's business: the result shows that it was asked.
    let repo = GitHubRepo::from_github_url("https://GitHub.com/a/b/tree/main?x=1#top").unwrap();
    assert_eq!((repo.owner.as_str(), repo.repo.as_str()), ("a", "b"));
    let repo = GitHubRepo::from_github_url("git+https://github.com/facebook/react.git").unwrap();
    assert_eq!((repo.owner.as_str(), repo.repo.as_str()), ("facebook", "react"));
    assert!(is_github_url("https://github.com/a/b"));
    assert!(is_github_url("https://github.com"));
    assert!(!is_github_url("https://gitlab.com/a/b"));
    assert!(!is_github_url("github.com/a/b"));
    assert!(!is_github_url("https://github.com.evil.example/a/b"));
}

#[test]
fn from_url_parts_decides_on_plain_values() {
    let parts = |host: Option<&str>, segments: Option<Vec<&str>>| {
        Some(UrlParts {
            host: host.map(|h| h.to_string()),
            segments: segments.map(|s| s.into_iter().map(|x| x.to_string()).collect()),
        })
    };
    assert_eq!(GitHubRepo::from_url_parts(None), Err(NotesError::InvalidUrl));
    assert_eq!(
        GitHubRepo::from_url_parts(parts(None, Some(vec!["a", "b"]))),
        Err(NotesError::UnsupportedHost)
    );
    assert_eq!(
        GitHubRepo::from_url_parts(parts(Some("example.com"), None)),
        Err(NotesError::UnsupportedHost)
    );
    assert_eq!(
        GitHubRepo::from_url_parts(parts(Some("github.com"), None)),
        Err(NotesError::InvalidUrl)
    );
    assert_eq!(
        GitHubRepo::from_url_parts(parts(Some("github.com"), Some(vec!["a"]))),
        Err(NotesError::InvalidUrl)
    );
    assert_eq!(
        GitHubRepo::from_url_parts(parts(Some("github.com"), Some(vec!["", "b"]))),
        Err(NotesError::InvalidUrl)
    );
    assert_eq!(
        GitHubRepo::from_url_parts(parts(Some("github.com"), Some(vec!["a", ".git"]))),
        Err(NotesError::InvalidUrl)
    );
    assert_eq!(
        GitHubRepo::from_url_parts(parts(Some("github.com"), Some(vec!["a", "b.git", "c"]))),
        Ok(GitHubRepo { owner: "a".to_string(), repo: "b".to_string() })
    );
}

#[test]
fn git_suffix_is_taken_off_once() {
    assert_eq!(strip_git_suffix("rust.git"), "rust");
    assert_eq!(strip_git_suffix("rust"), "rust");
    assert_eq!(strip_git_suffix(".git"), "");
    assert_eq!(strip_git_suffix("git"), "git");
    assert_eq!(strip_git_suffix("a.git.git"), "a.git");
    assert_eq!(strip_git_suffix("a.gits"), "a.gits");
    assert_eq!(strip_git_suffix("über.git"), "über");
    assert_eq!(strip_git_suffix(""), "");
}

#[test]
fn tags_are_tried_in_order() {
    let mut lookup = TagLookup::new("1.2.3");
    assert_eq!(lookup.next_action(), LookupAction::Fetch("1.2.3".to_string()));
    assert_eq!(lookup.next_action(), LookupAction::Fetch("1.2.3".to_string()));
    lookup.record_failure();
    assert_eq!(lookup.next_action(), LookupAction::Fetch("v1.2.3".to_string()));
    lookup.record_failure();
    assert_eq!(lookup.next_action(), LookupAction::GiveUp(NotesError::NotFound));
    lookup.record_failure();
    assert_eq!(lookup.next_action(), LookupAction::GiveUp(NotesError::NotFound));
}

#[test]
fn release_url_names_owner_repo_and_tag() {
    let repo = GitHubRepo { owner: "rust-lang".to_string(), repo: "rust".to_string() };
    assert_eq!(
        repo.release_url("v1.0.0"),
        "https://api.github.com/repos/rust-lang/rust/releases/tags/v1.0.0"
    );
}

#[test]
fn headers_with_and_without_token() {
    let pair = |a: &str, b: &str| (a.to_string(), b.to_string());
    assert_eq!(
        request_headers(None),
        vec![
            pair("User-Agent", "deputui-review/0.1.0"),
            pair("Accept", "application/vnd.github.v3+json"),
        ]
    );
    assert_eq!(
        request_headers(Some("SECRET")),
        vec![
            pair("User-Agent", "deputui-review/0.1.0"),
            pair("Accept", "application/vnd.github.v3+json"),
            pair("Authorization", "Bearer SECRET"),
        ]
    );
}

#[test]
fn only_status_200_is_accepted() {
    assert_eq!(accept_response(200, Some(release_with_body(None))), Some(release_with_body(None)));
    assert_eq!(accept_response(404, Some(release_with_body(None))), None);
    assert_eq!(accept_response(201, Some(release_with_body(None))), None);
    assert_eq!(accept_response(200, None), None);
}

#[test]
fn notes_or_placeholder() {
    assert_eq!(notes_text(Some("## Changes".to_string())), "## Changes");
    assert_eq!(notes_text(Some(String::new())), "Empty release notes");
    assert_eq!(notes_text(None), "Empty release notes");
    assert_eq!(notes_outcome(Ok(release_with_body(Some("notes")))), Ok("notes".to_string()));
    assert_eq!(notes_outcome(Ok(release_with_body(None))), Ok("Empty release notes".to_string()));
    assert_eq!(
        notes_outcome(Err(NotesError::NotFound)),
        Err("Failed to fetch release notes: No release found".to_string())
    );
    assert_eq!(
        notes_outcome(Err(NotesError::InvalidUrl)),
        Err("Invalid repository URL".to_string())
    );
    assert_eq!(
        notes_outcome(Err(NotesError::UnsupportedHost)),
        Err("Only GitHub repositories are supported for release notes".to_string())
    );
}

#[test]
fn release_ext_leads_to_repository_and_lookup() {
    let release = Release {
        package: "react".to_string(),
        semver: "18.3.0".to_string(),
        repository_url: "git+https://github.com/facebook/react.git".to_string(),
    };
    let ext = ReleaseExt(&release);
    assert_eq!(
        ext.repository(),
        Ok(GitHubRepo { owner: "facebook".to_string(), repo: "react".to_string() })
    );
    assert_eq!(ext.lookup().next_action(), LookupAction::Fetch("18.3.0".to_string()));
}
