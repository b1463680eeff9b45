//! GitHub API client: URL construction, input validation, and status
//! classification; the transport itself lives with the caller.

use vstd::prelude::*;

use crate::client::spec_blank;
use crate::error::GithubError;

verus! {

/// A GitHub user, as the API reports it.
#[derive(Debug)]
pub struct GithubUser {
    pub login: String,
    pub id: u64,
    pub name: Option<String>,
    pub email: Option<String>,
    pub bio: Option<String>,
    pub public_repos: u32,
    pub followers: u32,
    pub following: u32,
    pub created_at: String,
}

impl GithubUser {
    /// The display name: the user's name, or the login when none is set.
    pub fn display_name(&self) -> (r: &str)
        ensures
            match self.name {
                Some(n) => r@ == n@,
                None => r@ == self.login@,
            },
    {
        match &self.name {
            Some(n) => n.as_str(),
            None => self.login.as_str(),
        }
    }
}

/// A GitHub repository, as the API reports it.
#[derive(Debug)]
pub struct GithubRepo {
    pub id: u64,
    pub name: String,
    pub full_name: String,
    pub description: Option<String>,
    pub html_url: String,
    pub clone_url: String,
    pub language: Option<String>,
    pub stargazers_count: u32,
    pub forks_count: u32,
    pub created_at: String,
    pub updated_at: String,
}

/// One item of a repository's content listing.
#[derive(Debug)]
pub struct RepoContent {
    pub name: String,
    pub path: String,
    pub sha: String,
    pub size: u32,
    pub url: String,
    pub html_url: String,
    pub git_url: String,
    pub download_url: Option<String>,
    pub content_type: String,
}

/// The GitHub API client: only a base URL; every request is stateless.
#[derive(Debug)]
pub struct GithubClient {
    pub base_url: String,
}

impl GithubClient {
    /// A client against the public API.
    pub fn new() -> (r: GithubClient)
        ensures
            r.base_url@ == "https://api.github.com"@,
    {
        GithubClient { base_url: "https://api.github.com".to_owned() }
    }

    /// A client against a custom base URL.
    pub fn with_base_url(base_url: &str) -> (r: GithubClient)
        ensures
            r.base_url@ == base_url@,
    {
        GithubClient { base_url: base_url.to_owned() }
    }

    /// The base URL being used.
    pub fn base_url(&self) -> (r: &str)
        ensures
            r@ == self.base_url@,
    {
        self.base_url.as_str()
    }

    /// The URL a user is fetched from; a blank username is invalid
    /// input.
    pub fn user_url(&self, username: &str) -> (r: Result<String, GithubError>)
        ensures
            spec_blank(username@) ==> (r matches Err(e) && (e matches GithubError::InvalidInput(m)
                && m@ == "Username cannot be empty"@)),
            !spec_blank(username@) ==> (r matches Ok(u) && u@ == self.base_url@ + "/users/"@
                + username@),
    {
        let n = username.unicode_len();
        if crate::text::ws_prefix_end(username) == n {
            return Err(GithubError::InvalidInput("Username cannot be empty".to_owned()));
        }
        let mut u = self.base_url.clone();
        u.append("/users/");
        u.append(username);
        Ok(u)
    }

    /// The URL a repository is fetched from; a blank owner or name is
    /// invalid input.
    pub fn repo_url(&self, owner: &str, repo: &str) -> (r: Result<String, GithubError>)
        ensures
            spec_blank(owner@) || spec_blank(repo@) ==> (r matches Err(e) && (e matches
            GithubError::InvalidInput(m) && m@ == "Owner and repo cannot be empty"@)),
            !spec_blank(owner@) && !spec_blank(repo@) ==> (r matches Ok(u) && u@ == self.base_url@
                + "/repos/"@ + owner@ + "/"@ + repo@),
    {
        let no = owner.unicode_len();
        let nr = repo.unicode_len();
        if crate::text::ws_prefix_end(owner) == no || crate::text::ws_prefix_end(repo) == nr {
            return Err(GithubError::InvalidInput("Owner and repo cannot be empty".to_owned()));
        }
        let mut u = self.base_url.clone();
        u.append("/repos/");
        u.append(owner);
        u.append("/");
        u.append(repo);
        Ok(u)
    }

    /// The URL a repository content listing is fetched from: the
    /// repository's `contents` resource, or `contents/` joined with the
    /// requested path; a blank owner or name is invalid input.
    pub fn repo_content_url(&self, owner: &str, repo: &str, path: &str) -> (r: Result<
        String,
        GithubError,
    >)
        ensures
            spec_blank(owner@) || spec_blank(repo@) ==> (r matches Err(e) && (e matches
            GithubError::InvalidInput(m) && m@ == "Owner and repo cannot be empty"@)),
            !spec_blank(owner@) && !spec_blank(repo@) && path@.len() == 0 ==> (r matches Ok(u)
                && u@ == self.base_url@ + "/repos/"@ + owner@ + "/"@ + repo@ + "/contents"@),
            !spec_blank(owner@) && !spec_blank(repo@) && path@.len() != 0 ==> (r matches Ok(u)
                && u@ == self.base_url@ + "/repos/"@ + owner@ + "/"@ + repo@ + "/contents/"@
                + path@),
    {
        let no = owner.unicode_len();
        let nr = repo.unicode_len();
        if crate::text::ws_prefix_end(owner) == no || crate::text::ws_prefix_end(repo) == nr {
            return Err(GithubError::InvalidInput("Owner and repo cannot be empty".to_owned()));
        }
        let mut u = self.base_url.clone();
        u.append("/repos/");
        u.append(owner);
        u.append("/");
        u.append(repo);
        if path.unicode_len() == 0 {
            u.append("/contents");
        } else {
            u.append("/contents/");
            u.append(path);
        }
        Ok(u)
    }
}

/// Classifies an HTTP status for the GitHub client: 404 is not found,
/// 403 is rate limited, any 2xx is success, and everything else is a
/// network error naming the status.
pub fn classify_github_status(status: u16) -> (r: Result<(), GithubError>)
    ensures
        status == 404 ==> r == Err::<(), GithubError>(GithubError::NotFound),
        status == 403 ==> r == Err::<(), GithubError>(GithubError::RateLimited),
        200 <= status <= 299 ==> r is Ok,
        status != 404 && status != 403 && !(200 <= status <= 299) ==> (r matches Err(e) && (e
            matches GithubError::NetworkError(m) && m@ == "HTTP error: "@ + crate::text::dec_str(
            status as nat,
        ))),
{
    if status == 404 {
        Err(GithubError::NotFound)
    } else if status == 403 {
        Err(GithubError::RateLimited)
    } else if 200 <= status && status <= 299 {
        Ok(())
    } else {
        let mut m = "HTTP error: ".to_owned();
        let num = crate::text::u64_to_string(status as u64);
        m.append(num.as_str());
        Err(GithubError::NetworkError(m))
    }
}

/// The callback-flavoured GitHub client: the same state, driven by an
/// event loop that hands results to callbacks.
#[derive(Debug)]
pub struct GithubClientCallback {
    pub inner: GithubClient,
}

impl GithubClientCallback {
    /// A callback client against the public API.
    pub fn new() -> (r: GithubClientCallback)
        ensures
            r.inner.base_url@ == "https://api.github.com"@,
    {
        GithubClientCallback { inner: GithubClient::new() }
    }

    /// A callback client against a custom base URL.
    pub fn with_base_url(base_url: &str) -> (r: GithubClientCallback)
        ensures
            r.inner.base_url@ == base_url@,
    {
        GithubClientCallback { inner: GithubClient::with_base_url(base_url) }
    }

    /// The base URL being used.
    pub fn base_url(&self) -> (r: &str)
        ensures
            r@ == self.inner.base_url@,
    {
        self.inner.base_url()
    }
}

} // verus!
