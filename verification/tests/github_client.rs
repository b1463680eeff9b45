use olifm::error::GithubError;
use olifm::github::{classify_github_status, GithubClient, GithubClientCallback, GithubUser};

#[test]
fn client_test_client_creation() {
    let client = GithubClient::new();
    assert_eq!(client.base_url(), "https://api.github.com");
}

#[test]
fn client_test_client_with_custom_base_url() {
    let client = GithubClient::with_base_url("https://api.github.enterprise.com");
    assert_eq!(client.base_url(), "https://api.github.enterprise.com");
}

#[test]
fn user_and_repo_urls() {
    let client = GithubClient::new();
    assert_eq!(
        client.user_url("octocat").unwrap(),
        "https://api.github.com/users/octocat"
    );
    assert_eq!(
        client.repo_url("octocat", "hello").unwrap(),
        "https://api.github.com/repos/octocat/hello"
    );
    assert_eq!(
        client.repo_content_url("octocat", "hello", "").unwrap(),
        "https://api.github.com/repos/octocat/hello/contents"
    );
    assert_eq!(
        client.repo_content_url("octocat", "hello", "docs/a.md").unwrap(),
        "https://api.github.com/repos/octocat/hello/contents/docs/a.md"
    );
}

#[test]
fn blank_arguments_are_invalid_input() {
    let client = GithubClient::new();
    match client.user_url("  ") {
        Err(GithubError::InvalidInput(m)) => assert_eq!(m, "Username cannot be empty"),
        other => panic!("expected InvalidInput, got {:?}", other),
    }
    match client.repo_url("owner", " ") {
        Err(GithubError::InvalidInput(m)) => assert_eq!(m, "Owner and repo cannot be empty"),
        other => panic!("expected InvalidInput, got {:?}", other),
    }
    match client.repo_content_url("", "repo", "p") {
        Err(GithubError::InvalidInput(m)) => assert_eq!(m, "Owner and repo cannot be empty"),
        other => panic!("expected InvalidInput, got {:?}", other),
    }
}

#[test]
fn github_status_classification() {
    assert_eq!(classify_github_status(404), Err(GithubError::NotFound));
    assert_eq!(classify_github_status(403), Err(GithubError::RateLimited));
    assert_eq!(classify_github_status(204), Ok(()));
    assert_eq!(
        classify_github_status(502),
        Err(GithubError::NetworkError("HTTP error: 502".to_string()))
    );
}

#[test]
fn display_name_falls_back_to_login() {
    let user = GithubUser {
        login: "octocat".to_string(),
        id: 1,
        name: None,
        email: None,
        bio: None,
        public_repos: 0,
        followers: 0,
        following: 0,
        created_at: "2011-01-25T18:44:36Z".to_string(),
    };
    assert_eq!(user.display_name(), "octocat");
    let named = GithubUser {
        name: Some("The Octocat".to_string()),
        ..user
    };
    assert_eq!(named.display_name(), "The Octocat");
}

#[test]
fn callback_github_client_wraps_same_state() {
    let cb = GithubClientCallback::new();
    assert_eq!(cb.base_url(), "https://api.github.com");
    let cb2 = GithubClientCallback::with_base_url("https://ghe.example");
    assert_eq!(cb2.base_url(), "https://ghe.example");
}
