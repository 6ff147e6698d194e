use dathagerty::content::{ContentError, Date, Post};
use dathagerty::error::AppError;
use dathagerty::routes::{
    blog_index_metadata, content_page_metadata, failure_page, modules_index_metadata, not_found_metadata,
    page_title, post_page_metadata, tag_page_metadata, tags_index_metadata, valid_module_name, ModuleSegment,
    SimpleSegment, TagSegment,
};

fn post(summary: Option<&str>) -> Post {
    Post {
        slug: "hello".to_owned(),
        title: "A True Hello World".to_owned(),
        publish_date: Date { year: 2024, month: 10, day: 14 },
        last_edit: None,
        kind: Some("post".to_owned()),
        draft: false,
        summary: summary.map(str::to_owned),
        tags: vec!["rust/web".to_owned()],
        html: "<p>Hello from the fixture.</p>".to_owned(),
    }
}

#[test]
fn post_slugs_accept_ascii_words_with_dashes_and_underscores() {
    assert_eq!(SimpleSegment::from_str("hello-world_2").unwrap().as_str(), "hello-world_2");
    for rejected in ["", "hello world", "hello.md", "caf\u{e9}", "a/b"] {
        assert!(SimpleSegment::from_str(rejected).is_err(), "value: {rejected:?}");
    }
}

#[test]
fn module_names_with_dots_and_tildes_are_accepted() {
    assert_eq!(ModuleSegment::from_str("example.v2~beta").unwrap().as_str(), "example.v2~beta");
    for rejected in ["", ".hidden", "trailing.", "bad name", "a/b"] {
        assert!(ModuleSegment::from_str(rejected).is_err(), "value: {rejected:?}");
        assert!(!valid_module_name(rejected));
    }
    assert!(valid_module_name("a-b_c.d~e"));
}

#[test]
fn tag_segments_refuse_control_and_replacement_characters() {
    assert_eq!(TagSegment::from_str("rust/web").unwrap().as_str(), "rust/web");
    assert_eq!(TagSegment::from_str("two words").unwrap().as_str(), "two words");
    for rejected in ["", "a\u{0}b", "tab\there", "\u{7f}", "\u{85}", "bad\u{fffd}"] {
        assert!(TagSegment::from_str(rejected).is_err(), "value: {rejected:?}");
    }
}

#[test]
fn page_titles_add_the_site_name_once() {
    assert_eq!(page_title("dathagerty.com"), "dathagerty.com");
    assert_eq!(page_title("About"), "About | dathagerty.com");
}

#[test]
fn homepage_uses_a_meaningful_metadata_description() {
    let root = content_page_metadata("root", "dathagerty.com");
    assert_eq!(root.title, "dathagerty.com");
    assert_eq!(root.description, "David Hagerty's personal website and assorted ramblings.");

    let about = content_page_metadata("about", "About");
    assert_eq!(about.title, "About | dathagerty.com");
    assert_eq!(about.description, "About on dathagerty.com");
}

#[test]
fn post_and_tag_pages_have_route_metadata() {
    let with_summary = post_page_metadata(&post(Some("A tour of this blog")));
    assert_eq!(with_summary.title, "A True Hello World | dathagerty.com");
    assert_eq!(with_summary.description, "A tour of this blog");
    assert_eq!(post_page_metadata(&post(None)).description, "A post on dathagerty.com");

    let tag = tag_page_metadata("rust/web");
    assert_eq!(tag.title, "rust/web | dathagerty.com");
    assert_eq!(tag.description, "Posts tagged rust/web on dathagerty.com.");
}

#[test]
fn index_pages_have_route_metadata() {
    assert_eq!(blog_index_metadata().title, "Blag | dathagerty.com");
    assert_eq!(blog_index_metadata().description, "David Hagerty's blog posts.");
    assert_eq!(tags_index_metadata().title, "Tags | dathagerty.com");
    assert_eq!(tags_index_metadata().description, "Tags used on dathagerty.com.");
    assert_eq!(modules_index_metadata().title, "Go Modules | dathagerty.com");
    assert_eq!(modules_index_metadata().description, "Go modules published at dathagerty.com.");
}

#[test]
fn missing_content_is_answered_with_404_at_its_path() {
    let unmatched = failure_page(true, None, "/missing");
    assert_eq!(unmatched.status, 404);
    assert_eq!(unmatched.missing_path.as_deref(), Some("/missing"));
    assert_eq!(unmatched.metadata, not_found_metadata());
    assert_eq!(unmatched.metadata.title, "Not Found | dathagerty.com");
    assert_eq!(unmatched.metadata.description, "The requested page does not exist.");

    let missing_post = AppError::not_found("/blag/missing".to_owned());
    let answered = failure_page(false, Some(&missing_post), "/blag/missing");
    assert_eq!(answered.status, 404);
    assert_eq!(answered.missing_path.as_deref(), Some("/blag/missing"));
}

#[test]
fn repository_errors_are_answered_with_a_generic_500() {
    let error = AppError::from(ContentError::MissingData);
    let answered = failure_page(false, Some(&error), "/blag");

    assert_eq!(answered.status, 500);
    assert_eq!(answered.missing_path, None);
    assert_eq!(answered.metadata.title, "Server Error | dathagerty.com");
    assert_eq!(answered.metadata.description, "The server could not complete this request.");

    let other = failure_page(false, None, "/");
    assert_eq!(other.status, 500);
}

#[test]
fn app_errors_read_as_documented() {
    assert_eq!(AppError::not_found("/x".to_owned()).message(), "content was not found at /x");
    assert_eq!(AppError::from(ContentError::MissingData).message(), "content repository failed");
    assert!(matches!(AppError::from(ContentError::DuplicateData), AppError::Content(ContentError::DuplicateData)));
}
