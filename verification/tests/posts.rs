use blog_core::posts::{feed_posts, find_by_slug, load_posts, old_route_target, parse_post, slug_from_path};
use blog_core::{Post, PostError};

fn file(name: &str, text: &str) -> (String, String) {
    (name.to_string(), text.to_string())
}

fn load(files: Vec<(String, String)>) -> Result<Vec<Post>, PostError> {
    load_posts(&files)
}

#[test]
fn parses_one_post() {
    let text = "---\ntitle: Hello\ndate: 2024-01-05\n---\n# Hi\n";
    let post = parse_post("hello-world.md", text).unwrap();
    assert_eq!(post.slug, "hello-world");
    assert_eq!(post.meta.title, "Hello");
    assert_eq!(post.meta.date.year, 2024);
    assert_eq!(post.meta.date.month, 1);
    assert_eq!(post.meta.date.day, 5);
    assert_eq!(post.meta.iso_timestamp, "2024-01-05T00:00:00Z");
    assert_eq!(post.meta.description, None);
    assert_eq!(post.meta.external_url, None);
    assert_eq!(post.meta.published, None);
    assert!(post.content.contains("<h1>Hi</h1>"));
}

#[test]
fn renders_markdown_body() {
    let text = "---\ntitle: T\ndate: 2020-06-01\n---\nplain *emphasis*\n";
    let post = parse_post("p.md", text).unwrap();
    assert_eq!(post.content, "<p>plain <em>emphasis</em></p>\n");
}

#[test]
fn raw_html_passes_through() {
    let text = "---\ntitle: T\ndate: 2020-06-01\n---\n<div>kept</div>\n";
    let post = parse_post("p.md", text).unwrap();
    assert!(post.content.contains("<div>kept</div>"));
}

#[test]
fn optional_fields_and_quotes() {
    let text = "---\ntitle: \"Quoted Title\"\ndate: 2021-12-31\ndescription: 'about things'\nexternal_url: https://example.org/x\npublished: true\n---\nbody\n";
    let post = parse_post("x.md", text).unwrap();
    assert_eq!(post.meta.title, "Quoted Title");
    assert_eq!(post.meta.description.as_deref(), Some("about things"));
    assert_eq!(post.meta.external_url.as_deref(), Some("https://example.org/x"));
    assert_eq!(post.meta.published, Some(true));
}

#[test]
fn delimiter_inside_body_is_rejoined() {
    let text = "---\ntitle: T\ndate: 2020-01-01\n---\nbefore --- after\n";
    let post = parse_post("p.md", text).unwrap();
    assert!(post.content.contains("before"));
    assert!(post.content.contains("after"));
    assert!(!post.content.contains("---"));
}

#[test]
fn bad_extension_is_invalid_filename() {
    let text = "---\ntitle: T\ndate: 2020-01-01\n---\nbody\n";
    assert_eq!(parse_post("notes.txt", text).unwrap_err(), PostError::InvalidFilename);
}

#[test]
fn unclosed_frontmatter_is_structured_error() {
    let text = "---\ntitle: T\ndate: 2020-01-01\nbody without closing delimiter\n";
    assert_eq!(parse_post("p.md", text).unwrap_err(), PostError::MalformedFrontmatter);
}

#[test]
fn no_frontmatter_at_all_is_structured_error() {
    assert_eq!(parse_post("p.md", "just text\n").unwrap_err(), PostError::MalformedFrontmatter);
}

#[test]
fn missing_title_is_schema_error() {
    let text = "---\ndate: 2020-01-01\n---\nbody\n";
    assert_eq!(parse_post("p.md", text).unwrap_err(), PostError::FrontmatterSchema);
}

#[test]
fn missing_date_is_schema_error() {
    let text = "---\ntitle: T\n---\nbody\n";
    assert_eq!(parse_post("p.md", text).unwrap_err(), PostError::FrontmatterSchema);
}

#[test]
fn malformed_date_is_schema_error() {
    let text = "---\ntitle: T\ndate: 2020-13-01\n---\nbody\n";
    assert_eq!(parse_post("p.md", text).unwrap_err(), PostError::FrontmatterSchema);
    let text2 = "---\ntitle: T\ndate: someday\n---\nbody\n";
    assert_eq!(parse_post("p.md", text2).unwrap_err(), PostError::FrontmatterSchema);
}

#[test]
fn bad_published_value_is_schema_error() {
    let text = "---\ntitle: T\ndate: 2020-01-01\npublished: maybe\n---\nbody\n";
    assert_eq!(parse_post("p.md", text).unwrap_err(), PostError::FrontmatterSchema);
}

#[test]
fn load_sorts_by_date_descending() {
    let files = vec![
        file("oldest.md", "---\ntitle: A\ndate: 2019-05-01\n---\na\n"),
        file("newest.md", "---\ntitle: B\ndate: 2023-11-20\n---\nb\n"),
        file("middle.md", "---\ntitle: C\ndate: 2021-02-14\n---\nc\n"),
    ];
    let posts = load(files).unwrap();
    let slugs: Vec<&str> = posts.iter().map(|p| p.slug.as_str()).collect();
    assert_eq!(slugs, vec!["newest", "middle", "oldest"]);
}

#[test]
fn equal_dates_keep_input_order() {
    let files = vec![
        file("first.md", "---\ntitle: A\ndate: 2022-03-03\n---\na\n"),
        file("second.md", "---\ntitle: B\ndate: 2022-03-03\n---\nb\n"),
        file("third.md", "---\ntitle: C\ndate: 2022-03-03\n---\nc\n"),
    ];
    let posts = load(files).unwrap();
    let slugs: Vec<&str> = posts.iter().map(|p| p.slug.as_str()).collect();
    assert_eq!(slugs, vec!["first", "second", "third"]);
}

#[test]
fn unpublished_posts_are_excluded() {
    let files = vec![
        file("visible.md", "---\ntitle: A\ndate: 2022-01-01\n---\na\n"),
        file("draft.md", "---\ntitle: B\ndate: 2022-01-02\npublished: false\n---\nb\n"),
        file("explicit.md", "---\ntitle: C\ndate: 2022-01-03\npublished: true\n---\nc\n"),
    ];
    let posts = load(files).unwrap();
    let slugs: Vec<&str> = posts.iter().map(|p| p.slug.as_str()).collect();
    assert_eq!(slugs, vec!["explicit", "visible"]);
}

#[test]
fn one_bad_file_fails_the_whole_load() {
    let files = vec![
        file("good.md", "---\ntitle: A\ndate: 2022-01-01\n---\na\n"),
        file("bad.md", "---\ndate: 2022-01-02\n---\nb\n"),
    ];
    assert_eq!(load(files).unwrap_err(), PostError::FrontmatterSchema);
}

#[test]
fn find_by_slug_matches() {
    let files = vec![
        file("one.md", "---\ntitle: A\ndate: 2022-01-01\n---\na\n"),
        file("two.md", "---\ntitle: B\ndate: 2022-01-02\n---\nb\n"),
    ];
    let posts = load(files).unwrap();
    assert_eq!(find_by_slug(&posts, "one").unwrap().meta.title, "A");
    assert!(find_by_slug(&posts, "three").is_none());
}

#[test]
fn feed_excludes_link_posts() {
    let files = vec![
        file("own.md", "---\ntitle: A\ndate: 2022-01-01\n---\na\n"),
        file("link.md", "---\ntitle: B\ndate: 2022-01-02\nexternal_url: https://example.org\n---\nb\n"),
    ];
    let posts = load(files).unwrap();
    let feed = feed_posts(&posts);
    assert_eq!(feed.len(), 1);
    assert_eq!(feed[0].slug, "own");
}

#[test]
fn slug_from_path_strips_prefix() {
    assert_eq!(slug_from_path("/p/my-post").as_deref(), Some("my-post"));
    assert_eq!(slug_from_path("/about"), None);
    assert_eq!(slug_from_path("/p/"), Some(String::new()));
}

#[test]
fn old_routes_redirect_to_post_pages() {
    assert_eq!(old_route_target("my-post.html"), "/p/my-post");
    assert_eq!(old_route_target("my-post"), "/p/my-post");
    assert_eq!(old_route_target(""), "/p/");
}

#[test]
fn empty_directory_loads_an_empty_collection() {
    let posts = load(vec![]).unwrap();
    assert!(posts.is_empty());
}
