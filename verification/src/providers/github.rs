//! The GitHub side of the provider client: the wire shapes GitHub answers
//! with, and the pure logic that classifies responses, reads rate-limit
//! headers, and converts wire shapes into the common records.
//!
//! The HTTP transport itself is not here: a caller performs the request and
//! hands these functions the status, the interesting header and body fields,
//! and the decoded wire shapes, all as plain values.

use vstd::prelude::*;

use crate::providers::common::{BranchInfo, ContributorInfo, ProviderError, ProviderType,
    RateLimitInfo, RepoDetails, RepoInfo, UserInfo};
use crate::text::{all_digits, contains_sub, dec_val, has_prefix, match_at, parse_u32,
    u64_to_dec};

verus! {

/// A repository as GitHub's API reports one.
#[derive(Debug, Clone, PartialEq)]
pub struct GitHubRepo {
    pub id: u64,
    pub name: String,
    pub full_name: String,
    pub private: bool,
    pub html_url: String,
    pub description: Option<String>,
    pub fork: bool,
    pub url: String,
    pub clone_url: String,
    pub default_branch: String,
    pub created_at: String,
    pub updated_at: String,
    pub pushed_at: Option<String>,
    pub language: Option<String>,
    pub forks_count: u32,
    pub stargazers_count: u32,
    pub owner: GitHubUser,
    pub topics: Option<Vec<String>>,
    pub visibility: Option<String>,
    pub archived: Option<bool>,
    pub license: Option<GitHubLicense>,
    pub has_issues: Option<bool>,
    pub has_wiki: Option<bool>,
    pub has_projects: Option<bool>,
    pub size: Option<u64>,
}

/// A user as GitHub's API reports one.
#[derive(Debug, Clone, PartialEq)]
pub struct GitHubUser {
    pub login: String,
    pub id: u64,
    pub avatar_url: String,
    pub url: String,
    pub html_url: String,
    pub type_field: Option<String>,
    pub user_type: Option<String>,
    pub site_admin: Option<bool>,
    pub name: Option<String>,
    pub email: Option<String>,
    pub company: Option<String>,
    pub location: Option<String>,
    pub bio: Option<String>,
}

/// GitHub's rate-limit payload.
#[derive(Debug, Clone, PartialEq)]
pub struct GitHubRateLimit {
    pub resources: GitHubRateLimitResources,
    pub rate: GitHubRateLimitRate,
}

/// The per-resource sections of the rate-limit payload.
#[derive(Debug, Clone, PartialEq)]
pub struct GitHubRateLimitResources {
    pub core: GitHubRateLimitRate,
    pub search: GitHubRateLimitRate,
    pub graphql: GitHubRateLimitRate,
    pub integration_manifest: Option<GitHubRateLimitRate>,
    pub code_scanning_upload: Option<GitHubRateLimitRate>,
}

/// One rate-limit section.
#[derive(Debug, Clone, Copy, PartialEq, Eq, Structural)]
pub struct GitHubRateLimitRate {
    pub limit: u32,
    pub used: u32,
    pub remaining: u32,
    pub reset: u64,
}

/// A license as GitHub's API reports one.
#[derive(Debug, Clone, PartialEq)]
pub struct GitHubLicense {
    pub key: String,
    pub name: String,
    pub spdx_id: Option<String>,
    pub url: Option<String>,
}

/// A branch as GitHub's API reports one.
#[derive(Debug, Clone, PartialEq)]
pub struct GitHubBranch {
    pub name: String,
    pub commit: GitHubCommitRef,
    pub protected: bool,
}

/// A commit reference inside a branch record.
#[derive(Debug, Clone, PartialEq)]
pub struct GitHubCommitRef {
    pub sha: String,
    pub url: String,
}

/// A contributor as GitHub's API reports one.
#[derive(Debug, Clone, PartialEq)]
pub struct GitHubContributor {
    pub login: String,
    pub id: u64,
    pub avatar_url: String,
    pub contributions: u32,
    pub type_field: Option<String>,
    pub user_type: Option<String>,
}

/// A header field holds a `u32` number.
pub open spec fn u32_field(o: Option<String>) -> bool {
    o is Some && o->0@.len() > 0 && all_digits(o->0@) && dec_val(o->0@) <= u32::MAX
}

/// A header field holds a `u64` number.
pub open spec fn u64_field(o: Option<String>) -> bool {
    o is Some && o->0@.len() > 0 && all_digits(o->0@) && dec_val(o->0@) <= u64::MAX
}

/// Reads a rate-limit snapshot out of the `x-ratelimit-*` response headers,
/// handed in as plain strings.  A snapshot is returned exactly when the
/// limit, remaining and reset fields are numbers; a missing or malformed
/// used field falls back to `limit - remaining`, never below zero.
pub fn extract_rate_limit_from_headers(
    limit: Option<String>,
    remaining: Option<String>,
    reset: Option<String>,
    used: Option<String>,
) -> (r: Option<RateLimitInfo>)
    ensures
        r is Some <==> u32_field(limit) && u32_field(remaining) && u64_field(reset),
        r is Some ==> {
            let info = r->0;
            &&& info.limit == dec_val(limit->0@)
            &&& info.remaining == dec_val(remaining->0@)
            &&& info.reset_time == dec_val(reset->0@)
            &&& info.used == if u32_field(used) {
                dec_val(used->0@)
            } else if info.remaining <= info.limit {
                info.limit - info.remaining
            } else {
                0int
            }
            &&& info.provider_type == ProviderType::GitHub
        },
{
    let limit_v = match &limit {
        Some(s) => match parse_u32(s.as_str()) {
            Some(v) => v,
            None => {
                return None;
            },
        },
        None => {
            return None;
        },
    };
    let remaining_v = match &remaining {
        Some(s) => match parse_u32(s.as_str()) {
            Some(v) => v,
            None => {
                return None;
            },
        },
        None => {
            return None;
        },
    };
    let reset_v = match &reset {
        Some(s) => match crate::text::parse_u64(s.as_str()) {
            Some(v) => v,
            None => {
                return None;
            },
        },
        None => {
            return None;
        },
    };
    let used_v = match &used {
        Some(s) => match parse_u32(s.as_str()) {
            Some(v) => v,
            None => {
                if remaining_v <= limit_v {
                    limit_v - remaining_v
                } else {
                    0
                }
            },
        },
        None => {
            if remaining_v <= limit_v {
                limit_v - remaining_v
            } else {
                0
            }
        },
    };
    Some(
        RateLimitInfo {
            limit: limit_v,
            remaining: remaining_v,
            reset_time: reset_v,
            used: used_v,
            provider_type: ProviderType::GitHub,
        },
    )
}

/// A forbidden response whose body message speaks of the rate limit.
pub open spec fn rate_limited_response(status: u16, message: Option<String>) -> bool {
    status == 403 && message is Some && exists|i: int|
        match_at(message->0@, "rate limit"@, i)
}

/// Decides whether a failed response is a rate-limit rejection, from the
/// status and the body's message and reset fields.  When it is, the reset
/// time is the body's, or an hour past `now` when the body carries none.
pub fn is_rate_limit_error(
    status: u16,
    message: Option<String>,
    body_reset: Option<u64>,
    now: u64,
) -> (r: Option<u64>)
    ensures
        r is Some <==> rate_limited_response(status, message),
        r is Some ==> r->0 == match body_reset {
            Some(t) => t,
            None => if now <= u64::MAX - 3600 {
                (now + 3600) as u64
            } else {
                u64::MAX
            },
        },
{
    if status != 403 {
        return None;
    }
    let msg = match &message {
        Some(m) => m,
        None => {
            return None;
        },
    };
    if !contains_sub(msg.as_str(), "rate limit") {
        return None;
    }
    match body_reset {
        Some(t) => Some(t),
        None => {
            if now <= u64::MAX - 3600 {
                Some(now + 3600)
            } else {
                Some(u64::MAX)
            }
        },
    }
}

/// Classifies a failed GitHub response into the error taxonomy: a rate-limit
/// rejection first, then invalid credentials, then a missing resource, and a
/// plain request failure otherwise.
pub fn classify_error_response(
    status: u16,
    message: Option<String>,
    body_reset: Option<u64>,
    now: u64,
    resource: String,
) -> (r: ProviderError)
    ensures
        rate_limited_response(status, message) ==> r is RateLimitExceeded
            && r->RateLimitExceeded_reset_time == match body_reset {
            Some(t) => t,
            None => if now <= u64::MAX - 3600 {
                (now + 3600) as u64
            } else {
                u64::MAX
            },
        },
        !rate_limited_response(status, message) && status == 401 ==> r is AuthError
            && r->AuthError_0@ == "Invalid GitHub token"@,
        !rate_limited_response(status, message) && status == 404 ==> r is NotFound
            && r->NotFound_0@ == resource@,
        !rate_limited_response(status, message) && status != 401 && status != 404 ==> r
            is RequestFailed && has_prefix(r->RequestFailed_0@, "GitHub API error ("@),
{
    match is_rate_limit_error(status, message, body_reset, now) {
        Some(reset_time) => ProviderError::RateLimitExceeded { reset_time },
        None => {
            if status == 401 {
                ProviderError::AuthError(String::from_str("Invalid GitHub token"))
            } else if status == 404 {
                ProviderError::NotFound(resource)
            } else {
                let digits = u64_to_dec(status as u64);
                let text = String::from_str("GitHub API error (").concat(digits.as_str());
                let r = ProviderError::RequestFailed(text);
                proof {
                    assert(r->RequestFailed_0@.subrange(0, "GitHub API error ("@.len() as int)
                        =~= "GitHub API error ("@);
                }
                r
            }
        },
    }
}

/// Converts a GitHub user into the common shape: the numeric id becomes its
/// decimal digits, and the avatar is always carried.
pub fn convert_user(user: GitHubUser) -> (r: UserInfo)
    ensures
        all_digits(r.id@) && dec_val(r.id@) == user.id,
        r.id@.len() >= 1 && (r.id@.len() > 1 ==> r.id@[0] != '0'),
        r.login@ == user.login@,
        r.name == user.name,
        r.email == user.email,
        r.avatar_url is Some && r.avatar_url->0@ == user.avatar_url@,
        r.provider_type == ProviderType::GitHub,
{
    UserInfo {
        id: u64_to_dec(user.id),
        login: user.login,
        name: user.name,
        email: user.email,
        avatar_url: Some(user.avatar_url),
        provider_type: ProviderType::GitHub,
    }
}

/// Converts a GitHub repository into the common shape.  The visibility is
/// the reported one, or derived from the private flag where GitHub sent
/// none; the owner is converted as `convert_user`.
pub fn convert_repo(repo: GitHubRepo) -> (r: RepoInfo)
    ensures
        r.name@ == repo.name@,
        r.full_name@ == repo.full_name@,
        r.clone_url@ == repo.clone_url@,
        r.description == repo.description,
        r.default_branch@ == repo.default_branch@,
        r.created_at@ == repo.created_at@,
        r.updated_at@ == repo.updated_at@,
        r.language == repo.language,
        r.fork == repo.fork,
        r.forks_count == repo.forks_count,
        r.stargazers_count == Some(repo.stargazers_count),
        r.provider_type == ProviderType::GitHub,
        repo.visibility is Some ==> r.visibility@ == repo.visibility->0@,
        repo.visibility is None && repo.private ==> r.visibility@ == "private"@,
        repo.visibility is None && !repo.private ==> r.visibility@ == "public"@,
        all_digits(r.owner.id@) && dec_val(r.owner.id@) == repo.owner.id,
        r.owner.id@.len() >= 1 && (r.owner.id@.len() > 1 ==> r.owner.id@[0] != '0'),
        r.owner.login@ == repo.owner.login@,
        r.owner.name == repo.owner.name,
        r.owner.email == repo.owner.email,
        r.owner.avatar_url is Some && r.owner.avatar_url->0@ == repo.owner.avatar_url@,
{
    let visibility = match repo.visibility {
        Some(v) => v,
        None => {
            if repo.private {
                String::from_str("private")
            } else {
                String::from_str("public")
            }
        },
    };
    RepoInfo {
        name: repo.name,
        full_name: repo.full_name,
        clone_url: repo.clone_url,
        description: repo.description,
        default_branch: repo.default_branch,
        created_at: repo.created_at,
        updated_at: repo.updated_at,
        language: repo.language,
        fork: repo.fork,
        forks_count: repo.forks_count,
        stargazers_count: Some(repo.stargazers_count),
        provider_type: ProviderType::GitHub,
        visibility,
        owner: convert_user(repo.owner),
    }
}

/// Converts a GitHub repository into the detailed common shape: the basic
/// part as `convert_repo`, plus topics, license name and the detail flags,
/// each falling back to empty or false where GitHub sent none.
pub fn convert_repo_details(repo: GitHubRepo) -> (r: RepoDetails)
    ensures
        r.basic_info.name@ == repo.name@,
        r.basic_info.full_name@ == repo.full_name@,
        r.basic_info.clone_url@ == repo.clone_url@,
        r.basic_info.description == repo.description,
        r.basic_info.default_branch@ == repo.default_branch@,
        r.basic_info.created_at@ == repo.created_at@,
        r.basic_info.updated_at@ == repo.updated_at@,
        r.basic_info.language == repo.language,
        r.basic_info.fork == repo.fork,
        r.basic_info.forks_count == repo.forks_count,
        r.basic_info.stargazers_count == Some(repo.stargazers_count),
        r.basic_info.provider_type == ProviderType::GitHub,
        repo.visibility is Some ==> r.basic_info.visibility@ == repo.visibility->0@,
        repo.visibility is None && repo.private ==> r.basic_info.visibility@ == "private"@,
        repo.visibility is None && !repo.private ==> r.basic_info.visibility@ == "public"@,
        all_digits(r.basic_info.owner.id@) && dec_val(r.basic_info.owner.id@) == repo.owner.id,
        r.basic_info.owner.login@ == repo.owner.login@,
        r.basic_info.owner.name == repo.owner.name,
        r.basic_info.owner.email == repo.owner.email,
        r.basic_info.owner.avatar_url is Some && r.basic_info.owner.avatar_url->0@
            == repo.owner.avatar_url@,
        repo.topics is Some ==> r.topics == repo.topics->0,
        repo.topics is None ==> r.topics@.len() == 0,
        repo.license is Some ==> r.license is Some && r.license->0@ == repo.license->0.name@,
        repo.license is None ==> r.license is None,
        r.homepage is None,
        r.has_wiki == (repo.has_wiki is Some && repo.has_wiki->0),
        r.has_issues == (repo.has_issues is Some && repo.has_issues->0),
        r.has_projects == (repo.has_projects is Some && repo.has_projects->0),
        r.archived == (repo.archived is Some && repo.archived->0),
        r.pushed_at == repo.pushed_at,
        repo.size is Some ==> r.size == repo.size->0,
        repo.size is None ==> r.size == 0,
        r.provider_type == ProviderType::GitHub,
{
    let GitHubRepo {
        id,
        name,
        full_name,
        private,
        html_url,
        description,
        fork,
        url,
        clone_url,
        default_branch,
        created_at,
        updated_at,
        pushed_at,
        language,
        forks_count,
        stargazers_count,
        owner,
        topics,
        visibility,
        archived,
        license,
        has_issues,
        has_wiki,
        has_projects,
        size,
    } = repo;
    let topics_v = match topics {
        Some(t) => t,
        None => Vec::new(),
    };
    let license_v = match license {
        Some(l) => Some(l.name),
        None => None,
    };
    let basic = GitHubRepo {
        id,
        name,
        full_name,
        private,
        html_url,
        description,
        fork,
        url,
        clone_url,
        default_branch,
        created_at,
        updated_at,
        pushed_at: pushed_at.clone(),
        language,
        forks_count,
        stargazers_count,
        owner,
        topics: None,
        visibility,
        archived,
        license: None,
        has_issues,
        has_wiki,
        has_projects,
        size,
    };
    RepoDetails {
        basic_info: convert_repo(basic),
        topics: topics_v,
        license: license_v,
        homepage: None,
        has_wiki: matches!(has_wiki, Some(true)),
        has_issues: matches!(has_issues, Some(true)),
        has_projects: matches!(has_projects, Some(true)),
        archived: matches!(archived, Some(true)),
        pushed_at,
        size: match size {
            Some(s) => s,
            None => 0,
        },
        provider_type: ProviderType::GitHub,
    }
}

/// Converts a rate-limit payload into the common snapshot: the core
/// resource's numbers, exactly.
pub fn rate_limit_from_payload(payload: GitHubRateLimit) -> (r: RateLimitInfo)
    ensures
        r.limit == payload.resources.core.limit,
        r.remaining == payload.resources.core.remaining,
        r.reset_time == payload.resources.core.reset,
        r.used == payload.resources.core.used,
        r.provider_type == ProviderType::GitHub,
{
    RateLimitInfo {
        limit: payload.resources.core.limit,
        remaining: payload.resources.core.remaining,
        reset_time: payload.resources.core.reset,
        used: payload.resources.core.used,
        provider_type: ProviderType::GitHub,
    }
}

/// Converts a GitHub contributor into the common shape.
pub fn convert_contributor(c: GitHubContributor) -> (r: ContributorInfo)
    ensures
        r.login@ == c.login@,
        all_digits(r.id@) && dec_val(r.id@) == c.id,
        r.id@.len() >= 1 && (r.id@.len() > 1 ==> r.id@[0] != '0'),
        r.avatar_url is Some && r.avatar_url->0@ == c.avatar_url@,
        r.contributions == c.contributions,
        r.provider_type == ProviderType::GitHub,
{
    ContributorInfo {
        login: c.login,
        id: u64_to_dec(c.id),
        avatar_url: Some(c.avatar_url),
        contributions: c.contributions,
        provider_type: ProviderType::GitHub,
    }
}

/// Converts a GitHub branch into the common shape.
pub fn convert_branch(b: GitHubBranch) -> (r: BranchInfo)
    ensures
        r.name@ == b.name@,
        r.commit_sha@ == b.commit.sha@,
        r.protected == b.protected,
        r.provider_type == ProviderType::GitHub,
{
    BranchInfo {
        name: b.name,
        commit_sha: b.commit.sha,
        protected: b.protected,
        provider_type: ProviderType::GitHub,
    }
}

/// Decides credential validity from the outcome of a user-info call: any
/// success means valid, an authentication rejection means invalid, and every
/// other failure passes through.
pub fn validate_credentials_outcome(outcome: Result<UserInfo, ProviderError>) -> (r: Result<
    bool,
    ProviderError,
>)
    ensures
        outcome is Ok ==> r == Result::<bool, ProviderError>::Ok(true),
        outcome is Err && outcome->Err_0 is AuthError ==> r == Result::<
            bool,
            ProviderError,
        >::Ok(false),
        outcome is Err && !(outcome->Err_0 is AuthError) ==> r is Err && r->Err_0
            == outcome->Err_0,
{
    match outcome {
        Ok(_) => Ok(true),
        Err(ProviderError::AuthError(m)) => {
            proof {
                assert(ProviderError::AuthError(m) is AuthError);
            }
            Ok(false)
        },
        Err(e) => Err(e),
    }
}

} // verus!
