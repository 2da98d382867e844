//! Scenarios for the provider types and the GitHub response logic.

use gitfleet::providers::common::{ProviderError, ProviderType};
use gitfleet::providers::github::{
    classify_error_response, convert_branch, convert_contributor, convert_repo,
    convert_repo_details, extract_rate_limit_from_headers, is_rate_limit_error,
    rate_limit_from_payload, validate_credentials_outcome, GitHubBranch, GitHubCommitRef,
    GitHubContributor, GitHubLicense, GitHubRateLimit, GitHubRateLimitRate,
    GitHubRateLimitResources, GitHubRepo, GitHubUser,
};

fn fixture_user() -> GitHubUser {
    GitHubUser {
        login: "octocat".to_string(),
        id: 583231,
        avatar_url: "https://avatars.example/u/583231".to_string(),
        url: "https://api.example/users/octocat".to_string(),
        html_url: "https://example/octocat".to_string(),
        type_field: None,
        user_type: Some("User".to_string()),
        site_admin: Some(false),
        name: Some("The Octocat".to_string()),
        email: None,
        company: None,
        location: None,
        bio: None,
    }
}

fn fixture_repo() -> GitHubRepo {
    GitHubRepo {
        id: 1296269,
        name: "hello-world".to_string(),
        full_name: "octocat/hello-world".to_string(),
        private: false,
        html_url: "https://example/octocat/hello-world".to_string(),
        description: Some("My first repository".to_string()),
        fork: false,
        url: "https://api.example/repos/octocat/hello-world".to_string(),
        clone_url: "https://example/octocat/hello-world.git".to_string(),
        default_branch: "main".to_string(),
        created_at: "2011-01-26T19:01:12Z".to_string(),
        updated_at: "2011-01-26T19:14:43Z".to_string(),
        pushed_at: Some("2011-01-26T19:06:43Z".to_string()),
        language: Some("Rust".to_string()),
        forks_count: 9,
        stargazers_count: 80,
        owner: fixture_user(),
        topics: Some(vec!["octocat".to_string(), "example".to_string()]),
        visibility: None,
        archived: Some(false),
        license: Some(GitHubLicense {
            key: "mit".to_string(),
            name: "MIT License".to_string(),
            spdx_id: Some("MIT".to_string()),
            url: None,
        }),
        has_issues: Some(true),
        has_wiki: None,
        has_projects: Some(false),
        size: Some(108),
    }
}

#[test]
fn provider_names() {
    assert_eq!(ProviderType::GitHub.display_name(), "GitHub");
    assert_eq!(ProviderType::GitLab.display_name(), "GitLab");
    assert_eq!(ProviderType::BitBucket.display_name(), "BitBucket");
}

#[test]
fn error_messages() {
    assert_eq!(
        ProviderError::AuthError("bad token".to_string()).message(),
        "Authentication error: bad token"
    );
    assert_eq!(
        ProviderError::RateLimitExceeded {
            reset_time: 1_700_000_000
        }
        .message(),
        "Rate limit exceeded. Resets at timestamp: 1700000000"
    );
    assert_eq!(
        ProviderError::NotFound("octocat/missing".to_string()).message(),
        "Resource not found: octocat/missing"
    );
    assert_eq!(
        ProviderError::ParseError("bad json".to_string()).message(),
        "Failed to parse response: bad json"
    );
    assert_eq!(
        ProviderError::RequestFailed("boom".to_string()).message(),
        "Request failed: boom"
    );
    assert_eq!(
        ProviderError::Other("odd".to_string()).message(),
        "Provider error: odd"
    );
}

#[test]
fn rate_limit_headers_extract() {
    let info = extract_rate_limit_from_headers(
        Some("5000".to_string()),
        Some("4990".to_string()),
        Some("1700003600".to_string()),
        Some("10".to_string()),
    )
    .expect("all headers present");
    assert_eq!(info.limit, 5000);
    assert_eq!(info.remaining, 4990);
    assert_eq!(info.reset_time, 1_700_003_600);
    assert_eq!(info.used, 10);
    assert_eq!(info.provider_type, ProviderType::GitHub);
}

#[test]
fn rate_limit_headers_fall_back_for_used() {
    let info = extract_rate_limit_from_headers(
        Some("5000".to_string()),
        Some("4990".to_string()),
        Some("1700003600".to_string()),
        None,
    )
    .expect("used header is optional");
    assert_eq!(info.used, 10);
}

#[test]
fn rate_limit_headers_require_the_numbers() {
    assert!(extract_rate_limit_from_headers(
        None,
        Some("1".to_string()),
        Some("2".to_string()),
        None
    )
    .is_none());
    assert!(extract_rate_limit_from_headers(
        Some("5000".to_string()),
        Some("many".to_string()),
        Some("2".to_string()),
        None
    )
    .is_none());
}

#[test]
fn rate_limit_rejections_are_detected() {
    let reset = is_rate_limit_error(
        403,
        Some("API rate limit exceeded for user".to_string()),
        Some(1_700_000_000),
        5,
    );
    assert_eq!(reset, Some(1_700_000_000));
    let fallback = is_rate_limit_error(
        403,
        Some("rate limit hit".to_string()),
        None,
        1_000,
    );
    assert_eq!(fallback, Some(4_600));
    assert_eq!(
        is_rate_limit_error(403, Some("forbidden for you".to_string()), None, 0),
        None
    );
    assert_eq!(
        is_rate_limit_error(500, Some("rate limit".to_string()), None, 0),
        None
    );
    assert_eq!(is_rate_limit_error(403, None, None, 0), None);
}

#[test]
fn responses_classify_into_the_taxonomy() {
    match classify_error_response(
        403,
        Some("API rate limit exceeded".to_string()),
        Some(1_700_000_000),
        0,
        "octocat/hello-world".to_string(),
    ) {
        ProviderError::RateLimitExceeded { reset_time } => assert_eq!(reset_time, 1_700_000_000),
        other => panic!("expected rate limit, got {:?}", other),
    }
    match classify_error_response(401, None, None, 0, "r".to_string()) {
        ProviderError::AuthError(m) => assert_eq!(m, "Invalid GitHub token"),
        other => panic!("expected auth error, got {:?}", other),
    }
    match classify_error_response(404, None, None, 0, "Repository 'a/b' not found".to_string()) {
        ProviderError::NotFound(m) => assert_eq!(m, "Repository 'a/b' not found"),
        other => panic!("expected not found, got {:?}", other),
    }
    match classify_error_response(502, None, None, 0, "r".to_string()) {
        ProviderError::RequestFailed(m) => assert!(m.starts_with("GitHub API error (502")),
        other => panic!("expected request failure, got {:?}", other),
    }
}

#[test]
fn repos_convert_with_visibility_fallback() {
    let info = convert_repo(fixture_repo());
    assert_eq!(info.name, "hello-world");
    assert_eq!(info.full_name, "octocat/hello-world");
    assert_eq!(info.clone_url, "https://example/octocat/hello-world.git");
    assert_eq!(info.default_branch, "main");
    assert_eq!(info.stargazers_count, Some(80));
    assert_eq!(info.visibility, "public");
    assert_eq!(info.owner.id, "583231");
    assert_eq!(info.owner.login, "octocat");
    assert_eq!(
        info.owner.avatar_url.as_deref(),
        Some("https://avatars.example/u/583231")
    );

    let mut private_repo = fixture_repo();
    private_repo.private = true;
    assert_eq!(convert_repo(private_repo).visibility, "private");

    let mut labelled = fixture_repo();
    labelled.visibility = Some("internal".to_string());
    assert_eq!(convert_repo(labelled).visibility, "internal");
}

#[test]
fn repo_details_convert() {
    let details = convert_repo_details(fixture_repo());
    assert_eq!(details.basic_info.name, "hello-world");
    assert_eq!(details.topics, vec!["octocat", "example"]);
    assert_eq!(details.license.as_deref(), Some("MIT License"));
    assert_eq!(details.homepage, None);
    assert!(details.has_issues);
    assert!(!details.has_wiki);
    assert!(!details.has_projects);
    assert!(!details.archived);
    assert_eq!(details.size, 108);

    let mut bare = fixture_repo();
    bare.topics = None;
    bare.license = None;
    bare.size = None;
    let details = convert_repo_details(bare);
    assert!(details.topics.is_empty());
    assert_eq!(details.license, None);
    assert_eq!(details.size, 0);
}

#[test]
fn rate_limit_payload_takes_the_core_section() {
    let section = |limit, used, remaining, reset| GitHubRateLimitRate {
        limit,
        used,
        remaining,
        reset,
    };
    let payload = GitHubRateLimit {
        resources: GitHubRateLimitResources {
            core: section(5000, 25, 4975, 1_700_003_600),
            search: section(30, 1, 29, 1_700_000_060),
            graphql: section(5000, 0, 5000, 1_700_003_600),
            integration_manifest: None,
            code_scanning_upload: None,
        },
        rate: section(5000, 25, 4975, 1_700_003_600),
    };
    let info = rate_limit_from_payload(payload);
    assert_eq!(info.limit, 5000);
    assert_eq!(info.remaining, 4975);
    assert_eq!(info.used, 25);
    assert_eq!(info.reset_time, 1_700_003_600);
}

#[test]
fn contributors_and_branches_convert() {
    let c = convert_contributor(GitHubContributor {
        login: "octocat".to_string(),
        id: 583231,
        avatar_url: "https://avatars.example/u/583231".to_string(),
        contributions: 32,
        type_field: None,
        user_type: Some("User".to_string()),
    });
    assert_eq!(c.login, "octocat");
    assert_eq!(c.id, "583231");
    assert_eq!(c.contributions, 32);

    let b = convert_branch(GitHubBranch {
        name: "main".to_string(),
        commit: GitHubCommitRef {
            sha: "abcd".repeat(10),
            url: "https://api.example/commit".to_string(),
        },
        protected: true,
    });
    assert_eq!(b.name, "main");
    assert_eq!(b.commit_sha, "abcd".repeat(10));
    assert!(b.protected);
}

#[test]
fn credential_validation_outcomes() {
    let user = gitfleet::providers::common::UserInfo {
        id: "1".to_string(),
        login: "octocat".to_string(),
        name: None,
        email: None,
        avatar_url: None,
        provider_type: ProviderType::GitHub,
    };
    assert_eq!(validate_credentials_outcome(Ok(user)), Ok(true));
    assert_eq!(
        validate_credentials_outcome(Err(ProviderError::AuthError("denied".to_string()))),
        Ok(false)
    );
    match validate_credentials_outcome(Err(ProviderError::RateLimitExceeded { reset_time: 7 })) {
        Err(ProviderError::RateLimitExceeded { reset_time }) => assert_eq!(reset_time, 7),
        other => panic!("expected pass-through, got {:?}", other),
    }
}
