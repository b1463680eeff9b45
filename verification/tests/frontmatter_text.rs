use olifm::frontmatter::{extract_frontmatter, strip_frontmatter};
use olifm::indexer::is_image_file;
use olifm::render::parse_debug_sequence;
use olifm::text::u64_to_string;

#[test]
fn no_block_gives_empty_map() {
    let m = extract_frontmatter("just a document\nwith lines\n");
    assert_eq!(m.len(), 0);
    let m2 = extract_frontmatter("");
    assert_eq!(m2.len(), 0);
    // An opening delimiter without a closing one is no block.
    let m3 = extract_frontmatter("---\ntitle: Hello\nno closing");
    assert_eq!(m3.len(), 0);
}

#[test]
fn yaml_block_coerces_values_to_strings() {
    let text = "---\ntitle: Hello\ncount: 3\n---\nbody";
    let m = extract_frontmatter(text);
    assert_eq!(m.get("title").map(|s| s.as_str()), Some("Hello"));
    assert_eq!(m.get("count").map(|s| s.as_str()), Some("3"));
    assert_eq!(m.get("missing"), None);
}

#[test]
fn yaml_booleans_and_null_render_as_literals() {
    let text = "---\nflag: true\nnothing: null\n---\n";
    let m = extract_frontmatter(text);
    assert_eq!(m.get("flag").map(|s| s.as_str()), Some("true"));
    assert_eq!(m.get("nothing").map(|s| s.as_str()), Some("null"));
}

#[test]
fn broken_yaml_falls_back_to_line_parser() {
    // `a: b: c` is not valid YAML, so the line parser takes over.
    let text = "---\na: b: c\n# a comment\nquoted: \"va'l\"\nplain no colon here?\n---\nrest";
    let m = extract_frontmatter(text);
    assert_eq!(m.get("a").map(|s| s.as_str()), Some("b: c"));
    assert_eq!(m.get("quoted").map(|s| s.as_str()), Some("va'l"));
    assert_eq!(m.get("#"), None);
}

#[test]
fn strip_frontmatter_removes_leading_block() {
    let text = "---\ndate: 2025-09-09\n---\n# Title\nbody";
    assert_eq!(strip_frontmatter(text), "# Title\nbody");
    let plain = "no block here";
    assert_eq!(strip_frontmatter(plain), plain);
    let unclosed = "---\nnever closed";
    assert_eq!(strip_frontmatter(unclosed), unclosed);
}

#[test]
fn image_files_are_classified_by_extension() {
    assert!(is_image_file("photo.png"));
    assert!(is_image_file("PHOTO.JPG"));
    assert!(is_image_file("pic.jpeg"));
    assert!(is_image_file("anim.gif"));
    assert!(is_image_file("x.webp"));
    assert!(is_image_file("x.bmp"));
    assert!(is_image_file("x.tiff"));
    assert!(!is_image_file("readme.md"));
    assert!(!is_image_file("noextension"));
    assert!(!is_image_file(".hidden"));
    assert!(!is_image_file("trailingdot."));
}

#[test]
fn debug_sequences_are_joined() {
    let joined = parse_debug_sequence("[String(\"rust\"), String(\"web\")]");
    assert_eq!(joined, "rust â€¢ web");
    let untouched = parse_debug_sequence("no items at all");
    assert_eq!(untouched, "no items at all");
    let single = parse_debug_sequence("String(\"one\")");
    assert_eq!(single, "one");
}

#[test]
fn decimal_rendering_is_canonical() {
    assert_eq!(u64_to_string(0), "0");
    assert_eq!(u64_to_string(7), "7");
    assert_eq!(u64_to_string(1080), "1080");
    assert_eq!(u64_to_string(18446744073709551615), "18446744073709551615");
}
