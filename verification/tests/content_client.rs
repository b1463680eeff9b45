use olifm::client::{classify_status, ContentServiceClient, DocumentAction};
use olifm::error::ContentServiceError;
use olifm::models::{JsonEntry, MetaMap};

fn entry(path: &str, name: &str, date: Option<&str>) -> JsonEntry {
    JsonEntry {
        path: path.to_string(),
        entry_type: "file".to_string(),
        size: 1,
        name: name.to_string(),
        date: date.map(|d| d.to_string()),
        images: Vec::new(),
        metadata: MetaMap::new(),
    }
}

#[test]
fn test_client_creation() {
    let client = ContentServiceClient::new();
    assert_eq!(client.base_url(), "https://oli.fm");
}

#[test]
fn test_client_with_custom_base_url() {
    let client = ContentServiceClient::with_base_url("https://custom.contentservice.com");
    assert_eq!(client.base_url(), "https://custom.contentservice.com");
}

#[test]
fn directory_structure_url_joins_base() {
    let client = ContentServiceClient::new();
    assert_eq!(
        client.directory_structure_url(),
        "https://oli.fm/directory_structure.json"
    );
}

#[test]
fn query_content_sorts_dated_newest_first_then_undated_by_name() {
    let mut client = ContentServiceClient::new();
    client.store_manifest(vec![
        entry("/a", "A", Some("2024-01-01")),
        entry("/b", "B", Some("2025-01-01")),
        entry("/c", "zzz", None),
        entry("/d", "aaa", None),
    ]);
    let r = client.query_content("", None);
    let names: Vec<&str> = r.iter().map(|e| e.name.as_str()).collect();
    assert_eq!(names, vec!["B", "A", "aaa", "zzz"]);
}

#[test]
fn query_content_filters_by_prefix_and_type() {
    let mut client = ContentServiceClient::new();
    let mut dir = entry("/blog/sub", "S", None);
    dir.entry_type = "dir".to_string();
    client.store_manifest(vec![
        entry("/blog/x.md", "x", None),
        entry("/pictures/y.md", "y", None),
        dir,
    ]);
    let r = client.query_content("/blog", Some("file"));
    assert_eq!(r.len(), 1);
    assert_eq!(r[0].path, "/blog/x.md");
}

#[test]
fn fetch_manifest_is_memoized() {
    let mut client = ContentServiceClient::new();
    assert_eq!(
        client.manifest_fetch_url(),
        Some("https://oli.fm/directory_structure.json".to_string())
    );
    client.store_manifest(vec![entry("/a", "A", None)]);
    // A second fetch issues no request and serves the stored manifest.
    assert_eq!(client.manifest_fetch_url(), None);
    let first = client.query_content("", None);
    let second = client.query_content("", None);
    assert_eq!(first.len(), 1);
    assert_eq!(first.len(), second.len());
    assert_eq!(first[0].path, second[0].path);
    assert_eq!(first[0].name, second[0].name);
}

#[test]
fn get_document_rejects_blank_path() {
    let client = ContentServiceClient::new();
    match client.document_request("   ") {
        Err(ContentServiceError::InvalidInput(m)) => {
            assert_eq!(m, "Path cannot be empty");
        }
        other => panic!("expected InvalidInput, got {:?}", other),
    }
}

#[test]
fn get_document_classifies_status_404_and_403() {
    assert_eq!(classify_status(404), Err(ContentServiceError::NotFound));
    assert_eq!(classify_status(403), Err(ContentServiceError::RateLimited));
    assert_eq!(classify_status(200), Ok(()));
    assert_eq!(
        classify_status(500),
        Err(ContentServiceError::NetworkError(
            "HTTP error: 500".to_string()
        ))
    );
}

#[test]
fn document_request_resolves_and_caches() {
    let mut client = ContentServiceClient::new();
    match client.document_request("/blog/x.md") {
        Ok(DocumentAction::Fetch(url)) => assert_eq!(url, "https://oli.fm/blog/x.md"),
        other => panic!("expected Fetch, got {:?}", other),
    }
    match client.document_request("https://elsewhere.example/x.md") {
        Ok(DocumentAction::Fetch(url)) => assert_eq!(url, "https://elsewhere.example/x.md"),
        other => panic!("expected Fetch, got {:?}", other),
    }
    client.store_document(
        "https://oli.fm/blog/x.md".to_string(),
        "# body".to_string(),
    );
    match client.document_request("/blog/x.md") {
        Ok(DocumentAction::Cached(body)) => assert_eq!(body, "# body"),
        other => panic!("expected Cached, got {:?}", other),
    }
}

#[test]
fn get_entry_by_path_ignores_case() {
    let mut client = ContentServiceClient::new();
    client.store_manifest(vec![entry("/Blog/Post.md", "p", None)]);
    assert!(client.get_entry_by_path("/blog/post.md").is_some());
    assert!(client.get_entry_by_path("/blog/other.md").is_none());
}

#[test]
fn resolve_images_for_matches_exact_path() {
    let mut client = ContentServiceClient::new();
    let mut e = entry("/blog/p.md", "p", None);
    e.images = vec![olifm::models::Img {
        blurhash: "h".to_string(),
        aspect_ratio: "4/3".to_string(),
        name: "i.png".to_string(),
        path: "/i.png".to_string(),
    }];
    client.store_manifest(vec![e]);
    let imgs = client.resolve_images_for("/blog/p.md");
    assert_eq!(imgs.len(), 1);
    assert_eq!(imgs[0].name, "i.png");
    assert_eq!(client.resolve_images_for("/blog/P.md").len(), 0);
}

#[test]
fn sort_entries_by_date_uses_metadata_both_directions() {
    let mut older = entry("/o", "older", None);
    older
        .metadata
        .insert("date".to_string(), "2020-01-01".to_string());
    let mut newer = entry("/n", "newer", None);
    newer
        .metadata
        .insert("date".to_string(), "2021-01-01".to_string());
    let undated = entry("/u", "undated", None);

    let mut v = vec![older, newer, undated];
    olifm::client::sort_entries_by_date(&mut v, true);
    let names: Vec<&str> = v.iter().map(|e| e.name.as_str()).collect();
    assert_eq!(names, vec!["newer", "older", "undated"]);

    olifm::client::sort_entries_by_date(&mut v, false);
    let names: Vec<&str> = v.iter().map(|e| e.name.as_str()).collect();
    assert_eq!(names, vec!["older", "newer", "undated"]);
}

#[test]
fn date_formats_parse_in_cascade_order() {
    // Each accepted format sorts correctly against an RFC 3339 date.
    for d in [
        "2024-06-01T12:00:00Z",
        "2024-06-01 12:00:00",
        "2024-06-01",
        "2024/06/01",
        "01-06-2024",
        "06/01/2024",
        "June 1, 2024",
        "Jun 1, 2024",
    ] {
        let mut client = ContentServiceClient::new();
        client.store_manifest(vec![
            entry("/new", "new", Some("2025-01-01")),
            entry("/old", "old", Some(d)),
        ]);
        let r = client.query_content("", None);
        assert_eq!(r[0].name, "new", "format {d} should parse older than 2025");
        assert_eq!(r[1].name, "old");
    }
    // An unparseable date sorts with the undated, by name.
    let mut client = ContentServiceClient::new();
    client.store_manifest(vec![
        entry("/g", "garbled", Some("not a date")),
        entry("/d", "dated", Some("2020-01-01")),
    ]);
    let r = client.query_content("", None);
    assert_eq!(r[0].name, "dated");
    assert_eq!(r[1].name, "garbled");
}

#[test]
fn callback_client_wraps_same_state() {
    let cb = olifm::client::ContentServiceClientCallback::new();
    assert_eq!(cb.base_url(), "https://oli.fm");
    let cb2 = olifm::client::ContentServiceClientCallback::with_base_url("https://x.example");
    assert_eq!(cb2.base_url(), "https://x.example");
}
