use olifm::codec::get_base64_from_blurhash;
use olifm::images::find_images;
use olifm::indexer::make_entry;
use olifm::models::{Img, JsonEntry, MetaMap};
use olifm::render::{load_readme, replace_images};

fn img(name: &str, path: &str) -> Img {
    Img {
        blurhash: "LEHV6nWB2yk8pyo0adR*.7kCMdnj".to_string(),
        aspect_ratio: "4/3".to_string(),
        name: name.to_string(),
        path: path.to_string(),
    }
}

#[test]
fn markers_resolve_in_first_occurrence_order_deduplicated() {
    let catalog = vec![img("x.png", "/x.png"), img("y.png", "/y.png")];
    let text = "start ![[y.png]] mid ![[x.png]] again ![[y.png]] missing ![[z.png]]";
    let found = find_images(text, catalog);
    let names: Vec<&str> = found.iter().map(|i| i.name.as_str()).collect();
    assert_eq!(names, vec!["y.png", "x.png"]);
}

#[test]
fn malformed_markers_are_skipped() {
    let catalog = vec![img("x.png", "/x.png")];
    assert_eq!(find_images("![[x.png]", catalog).len(), 0);
    let catalog = vec![img("x.png", "/x.png")];
    assert_eq!(find_images("![[]]", catalog).len(), 0);
    let catalog = vec![img("x.png", "/x.png")];
    assert_eq!(find_images("no markers", catalog).len(), 0);
}

#[test]
fn later_catalog_entry_of_same_name_wins() {
    let first = img("x.png", "/a/x.png");
    let mut second = img("x.png", "/b/x.png");
    second.aspect_ratio = "16/9".to_string();
    let found = find_images("![[x.png]]", vec![first, second]);
    assert_eq!(found.len(), 1);
    assert_eq!(found[0].path, "/b/x.png");
    assert_eq!(found[0].aspect_ratio, "16/9");
}

#[test]
fn indexer_entry_takes_date_and_images_from_document() {
    let catalog = vec![img("photo.png", "/photo.png")];
    let text = "---\ndate: 2025-09-09\n---\nsee ![[photo.png]]";
    let entry = make_entry(
        "/readme.md".to_string(),
        "readme.md".to_string(),
        42,
        None,
        text,
        &catalog,
    );
    assert_eq!(entry.path, "/readme.md");
    assert_eq!(entry.entry_type, "file");
    assert_eq!(entry.size, 42);
    assert_eq!(entry.name, "readme.md");
    assert_eq!(entry.date.as_deref(), Some("2025-09-09"));
    assert_eq!(entry.images.len(), 1);
    assert_eq!(entry.images[0].name, "photo.png");
    assert_eq!(entry.metadata.get("date").map(|s| s.as_str()), Some("2025-09-09"));
}

#[test]
fn indexer_entry_defaults_and_overrides() {
    let catalog: Vec<Img> = Vec::new();
    // Frontmatter name overrides the base name; the filesystem date is
    // the default when the frontmatter has none.
    let with_name = make_entry(
        "/a.md".to_string(),
        "a.md".to_string(),
        1,
        Some("2024-02-02T00:00:00Z".to_string()),
        "---\nname: Fancy Title\n---\n",
        &catalog,
    );
    assert_eq!(with_name.name, "Fancy Title");
    assert_eq!(with_name.date.as_deref(), Some("2024-02-02T00:00:00Z"));

    let plain = make_entry(
        "/b.md".to_string(),
        "b.md".to_string(),
        2,
        None,
        "no frontmatter",
        &catalog,
    );
    assert_eq!(plain.name, "b.md");
    assert_eq!(plain.date, None);
    assert_eq!(plain.images.len(), 0);
    assert_eq!(plain.metadata.len(), 0);
}

#[test]
fn replace_images_substitutes_markers_with_markup() {
    let image = img("photo.png", "/photo.png");
    let b64 = get_base64_from_blurhash(&image.blurhash);
    let expected_html = format!(
        "<div class=\"article-image-wrap\" style=\"aspect-ratio: {};\">\n                <img class=\"article-image-blur\" src=\"data:image/bmp;base64,{}\" alt=\"blurred image\" />\n                <img class=\"photo-card-img article-image\" src=\"{}\" alt=\"{}\" loading=\"lazy\" onload=\"this.style.opacity=1\" />\n            </div>",
        "4/3",
        b64,
        "https://oli.fm/content/photo.png",
        "photo.png"
    );
    let content = "before ![[photo.png]] after";
    let replaced = replace_images(content, &vec![image], "https://oli.fm");
    assert_eq!(replaced, format!("before {} after", expected_html));
}

#[test]
fn replace_images_leaves_unknown_markers() {
    let content = "keep ![[unknown.png]]";
    let replaced = replace_images(content, &Vec::new(), "https://oli.fm");
    assert_eq!(replaced, content);
}

#[test]
fn load_readme_wraps_document_and_removes_listing_entry() {
    let mk = |name: &str| JsonEntry {
        path: format!("/{}", name),
        entry_type: "file".to_string(),
        size: 0,
        name: name.to_string(),
        date: None,
        images: Vec::new(),
        metadata: MetaMap::new(),
    };
    let mut entries = vec![mk("a.md"), mk("README.md"), mk("b.md")];
    let mut html = String::new();
    let document = "<h1>hi</h1>".to_string();
    load_readme(&mut entries, &mut html, &document);
    assert_eq!(html, "<div class=\"page-title\"><h1>hi</h1></div>");
    let names: Vec<&str> = entries.iter().map(|e| e.name.as_str()).collect();
    assert_eq!(names, vec!["a.md", "b.md"]);

    // Without a readme the listing is unchanged.
    let mut entries2 = vec![mk("a.md")];
    let mut html2 = String::new();
    load_readme(&mut entries2, &mut html2, &document);
    assert_eq!(entries2.len(), 1);
}
