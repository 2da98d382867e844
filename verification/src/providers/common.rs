//! Common Git provider types: the provider kinds, the error taxonomy, and
//! the record shapes every provider is converted into.

use vstd::prelude::*;

use crate::text::{all_digits, dec_val, u64_to_dec};

verus! {

/// The supported Git providers.
#[derive(Debug, Clone, Copy, PartialEq, Eq, Hash, Structural)]
pub enum ProviderType {
    GitHub,
    GitLab,
    BitBucket,
}

/// The display name of a provider.
pub open spec fn provider_name(p: ProviderType) -> Seq<char> {
    match p {
        ProviderType::GitHub => "GitHub"@,
        ProviderType::GitLab => "GitLab"@,
        ProviderType::BitBucket => "BitBucket"@,
    }
}

impl ProviderType {
    /// The provider's display name.
    pub fn display_name(&self) -> (r: String)
        ensures
            r@ == provider_name(*self),
    {
        match self {
            ProviderType::GitHub => String::from_str("GitHub"),
            ProviderType::GitLab => String::from_str("GitLab"),
            ProviderType::BitBucket => String::from_str("BitBucket"),
        }
    }
}

/// What can go wrong talking to a provider.
#[derive(Debug, Clone, PartialEq)]
pub enum ProviderError {
    /// The remote rejected the credentials.
    AuthError(String),
    /// The remote signalled exhausted quota, with its reset time.
    RateLimitExceeded { reset_time: u64 },
    /// The resource does not exist.
    NotFound(String),
    /// The request failed.
    RequestFailed(String),
    /// The response could not be decoded.
    ParseError(String),
    /// Anything else.
    Other(String),
}

impl ProviderError {
    /// Renders the error for a reader.  Each variant carries its fixed
    /// heading; the rate-limit variant ends in the decimal reset time.
    pub fn message(&self) -> (r: String)
        ensures
            match self {
                ProviderError::AuthError(m) => r@ == "Authentication error: "@ + m@,
                ProviderError::RateLimitExceeded { reset_time } => {
                    let p = "Rate limit exceeded. Resets at timestamp: "@;
                    &&& r@.len() > p.len()
                    &&& r@.subrange(0, p.len() as int) == p
                    &&& all_digits(r@.subrange(p.len() as int, r@.len() as int))
                    &&& dec_val(r@.subrange(p.len() as int, r@.len() as int)) == *reset_time
                    &&& (r@.len() > p.len() + 1 ==> r@[p.len() as int] != '0')
                },
                ProviderError::NotFound(m) => r@ == "Resource not found: "@ + m@,
                ProviderError::RequestFailed(m) => r@ == "Request failed: "@ + m@,
                ProviderError::ParseError(m) => r@ == "Failed to parse response: "@ + m@,
                ProviderError::Other(m) => r@ == "Provider error: "@ + m@,
            },
    {
        match self {
            ProviderError::AuthError(m) => String::from_str("Authentication error: ").concat(
                m.as_str(),
            ),
            ProviderError::RateLimitExceeded { reset_time } => {
                let digits = u64_to_dec(*reset_time);
                let r = String::from_str("Rate limit exceeded. Resets at timestamp: ").concat(
                    digits.as_str(),
                );
                proof {
                    let p = "Rate limit exceeded. Resets at timestamp: "@;
                    assert(r@.subrange(0, p.len() as int) =~= p);
                    assert(r@.subrange(p.len() as int, r@.len() as int) =~= digits@);
                    assert(r@[p.len() as int] == digits@[0]);
                }
                r
            },
            ProviderError::NotFound(m) => String::from_str("Resource not found: ").concat(
                m.as_str(),
            ),
            ProviderError::RequestFailed(m) => String::from_str("Request failed: ").concat(
                m.as_str(),
            ),
            ProviderError::ParseError(m) => String::from_str("Failed to parse response: ").concat(
                m.as_str(),
            ),
            ProviderError::Other(m) => String::from_str("Provider error: ").concat(m.as_str()),
        }
    }
}

/// A user as every provider reports one.
#[derive(Debug, Clone, PartialEq)]
pub struct UserInfo {
    pub id: String,
    pub login: String,
    pub name: Option<String>,
    pub email: Option<String>,
    pub avatar_url: Option<String>,
    pub provider_type: ProviderType,
}

/// A repository as every provider reports one.
#[derive(Debug, Clone, PartialEq)]
pub struct RepoInfo {
    pub name: String,
    pub full_name: String,
    pub clone_url: String,
    pub description: Option<String>,
    pub default_branch: String,
    pub created_at: String,
    pub updated_at: String,
    pub language: Option<String>,
    pub fork: bool,
    pub forks_count: u32,
    pub stargazers_count: Option<u32>,
    pub provider_type: ProviderType,
    pub visibility: String,
    pub owner: UserInfo,
}

/// A provider's rate-limit snapshot.
#[derive(Debug, Clone, Copy, PartialEq, Eq, Structural)]
pub struct RateLimitInfo {
    pub limit: u32,
    pub remaining: u32,
    pub reset_time: u64,
    pub used: u32,
    pub provider_type: ProviderType,
}

/// Detailed repository information.
#[derive(Debug, Clone, PartialEq)]
pub struct RepoDetails {
    pub basic_info: RepoInfo,
    pub topics: Vec<String>,
    pub license: Option<String>,
    pub homepage: Option<String>,
    pub has_wiki: bool,
    pub has_issues: bool,
    pub has_projects: bool,
    pub archived: bool,
    pub pushed_at: Option<String>,
    pub size: u64,
    pub provider_type: ProviderType,
}

/// One contributor of a repository.
#[derive(Debug, Clone, PartialEq)]
pub struct ContributorInfo {
    pub login: String,
    pub id: String,
    pub avatar_url: Option<String>,
    pub contributions: u32,
    pub provider_type: ProviderType,
}

/// One branch of a repository.
#[derive(Debug, Clone, PartialEq)]
pub struct BranchInfo {
    pub name: String,
    pub commit_sha: String,
    pub protected: bool,
    pub provider_type: ProviderType,
}

} // verus!
