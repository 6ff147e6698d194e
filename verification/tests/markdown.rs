use dathagerty::content::{
    document_parts, page_from_parts, post_from_parts, slug_from_path, Branding, ContentError, Date, GoModule,
    PageFrontmatter, PostFrontmatter, TagSummary,
};

const PAGE_FIELDS: &[&str] = &["title", "kind", "lastEdit"];
const POST_FIELDS: &[&str] = &["title", "publishDate", "lastEdit", "kind", "draft", "summary", "tags"];

/// The frontmatter's fields, refusing any field the document kind does not
/// have, as the site's frontmatter parser does.
fn fields(yaml: &str, known: &'static [&'static str]) -> Result<serde_yaml_ng::Mapping, serde_yaml_ng::Error> {
    let fields: serde_yaml_ng::Mapping = serde_yaml_ng::from_str(yaml)?;
    for key in fields.keys() {
        let key = key.as_str().unwrap_or_default();
        if !known.contains(&key) {
            return Err(<serde_yaml_ng::Error as serde::de::Error>::unknown_field(key, known));
        }
    }
    Ok(fields)
}

fn text(fields: &serde_yaml_ng::Mapping, key: &str) -> Option<String> {
    fields.get(key).and_then(|value| value.as_str()).map(str::to_owned)
}

fn page_frontmatter(yaml: &str) -> Result<PageFrontmatter, serde_yaml_ng::Error> {
    let fields = fields(yaml, PAGE_FIELDS)?;
    Ok(PageFrontmatter { title: text(&fields, "title"), kind: text(&fields, "kind"), last_edit: text(&fields, "lastEdit") })
}

fn post_frontmatter(yaml: &str) -> Result<PostFrontmatter, serde_yaml_ng::Error> {
    let fields = fields(yaml, POST_FIELDS)?;
    Ok(PostFrontmatter {
        title: text(&fields, "title"),
        publish_date: text(&fields, "publishDate"),
        last_edit: text(&fields, "lastEdit"),
        kind: text(&fields, "kind"),
        draft: fields.get("draft").and_then(|value| value.as_bool()).unwrap_or(false),
        summary: text(&fields, "summary"),
        tags: fields
            .get("tags")
            .and_then(|value| value.as_sequence())
            .map(|tags| tags.iter().filter_map(|tag| tag.as_str().map(str::to_owned)).collect())
            .unwrap_or_default(),
    })
}

fn render(markdown: &str) -> String {
    comrak::markdown_to_html(markdown, &comrak::Options::default())
}

fn parse_page(path: &str, source: &str) -> Result<dathagerty::content::Page, ContentError> {
    let (slug, yaml, markdown) = document_parts(path, source)?;
    page_from_parts(path, slug, page_frontmatter(&yaml), Ok(render(&markdown)))
}

fn parse_post(path: &str, source: &str) -> Result<dathagerty::content::Post, ContentError> {
    let (slug, yaml, markdown) = document_parts(path, source)?;
    post_from_parts(path, slug, post_frontmatter(&yaml), Ok(render(&markdown)))
}

#[test]
fn parses_valid_page() {
    let source = "---\ntitle: About\nkind: page\nlastEdit: 2023-10-03\n---\n# Hello";

    let page = parse_page("pages/about.md", source).unwrap();

    assert_eq!(page.slug, "about");
    assert_eq!(page.title, "About");
    assert_eq!(page.kind.as_deref(), Some("page"));
    assert_eq!(page.last_edit, Some(Date { year: 2023, month: 10, day: 3 }));
    assert!(page.html.contains("Hello"));
}

#[test]
fn parses_valid_post() {
    let source = "---\ntitle: Hello\npublishDate: 2025-07-25\nlastEdit: 2025-07-26\nkind: post\ndraft: true\nsummary: A greeting\ntags: [rust, meta]\n---\nPost body";

    let post = parse_post("posts/hello.md", source).unwrap();

    assert_eq!(post.slug, "hello");
    assert_eq!(post.title, "Hello");
    assert_eq!(post.publish_date, Date { year: 2025, month: 7, day: 25 });
    assert_eq!(post.last_edit, Some(Date { year: 2025, month: 7, day: 26 }));
    assert_eq!(post.kind.as_deref(), Some("post"));
    assert!(post.draft);
    assert_eq!(post.summary.as_deref(), Some("A greeting"));
    assert_eq!(post.tags, ["rust", "meta"]);
    assert!(post.html.contains("Post body"));
}

#[test]
fn post_optional_fields_have_defaults() {
    let source = "---\ntitle: Hello\npublishDate: 2025-07-25\n---\nPost body";

    let post = parse_post("hello.md", source).unwrap();

    assert!(!post.draft);
    assert_eq!(post.tags, Vec::<String>::new());
    assert_eq!(post.summary, None);
    assert_eq!(post.kind, None);
    assert_eq!(post.last_edit, None);
}

#[test]
fn rejects_post_without_publication_date() {
    let source = "---\ntitle: Hello\n---\nPost body";

    let error = parse_post("posts/hello.md", source).unwrap_err();

    assert!(matches!(
        error,
        ContentError::MissingField { ref path, field: "publishDate" } if path == "posts/hello.md"
    ));
}

#[test]
fn rejects_post_without_title() {
    let source = "---\npublishDate: 2025-07-25\n---\nPost body";

    let error = parse_post("posts/hello.md", source).unwrap_err();

    assert!(matches!(error, ContentError::MissingField { ref path, field: "title" } if path == "posts/hello.md"));
}

#[test]
fn rejects_page_without_title() {
    let source = "---\nkind: page\n---\nPage body";

    let error = parse_page("pages/about.md", source).unwrap_err();

    assert!(matches!(error, ContentError::MissingField { ref path, field: "title" } if path == "pages/about.md"));
}

#[test]
fn rejects_invalid_yaml_with_path_context() {
    let source = "---\ntitle: About\nunexpected: true\n---\nPage body";

    let error = parse_page("pages/about.md", source).unwrap_err();

    assert!(matches!(error, ContentError::Yaml { ref path, .. } if path == "pages/about.md"));
    assert!(matches!(error, ContentError::Yaml { ref source, .. } if source.to_string().contains("unknown field `unexpected`")));
    assert_eq!(error.message(), "could not deserialize YAML frontmatter in pages/about.md");
}

#[test]
fn rejects_non_markdown_empty_and_unsafe_filenames() {
    let source = "---\ntitle: About\n---\nPage body";

    for path in ["about.txt", ".md", "hello world.md", "what?.md", ".hidden.md"] {
        let error = parse_page(path, source).unwrap_err();

        assert!(matches!(error, ContentError::InvalidFilename { path: ref error_path } if error_path == path));
    }
}

#[test]
fn auxiliary_content_models_are_owned_and_cloneable() {
    let tag = TagSummary { name: "rust".to_owned(), post_count: 2 };
    let module = GoModule {
        repository_url: "https://example.com/repo".to_owned(),
        import_path: "dathagerty.com/go/example".to_owned(),
        name: "example".to_owned(),
        description: "An example".to_owned(),
        license: "MIT".to_owned(),
    };
    let branding = Branding { word: "deliriums".to_owned(), slogan: "a little rusty".to_owned() };

    assert_eq!(tag.clone(), tag);
    assert_eq!(module.clone(), module);
    assert_eq!(branding.clone(), branding);
    assert!(format!("{tag:?}{module:?}{branding:?}").contains("deliriums"));
}

#[test]
fn documents_split_into_slug_frontmatter_and_body() {
    let (slug, yaml, markdown) = document_parts("posts/a-b_c.md", "---\ntitle: T\n---\nbody\n---\nmore").unwrap();

    assert_eq!(slug, "a-b_c");
    assert_eq!(yaml, "title: T");
    assert_eq!(markdown, "body\n---\nmore");
}

#[test]
fn documents_without_frontmatter_delimiters_are_rejected() {
    let missing = document_parts("pages/a.md", "title: T\n---\nbody").unwrap_err();
    assert!(matches!(missing, ContentError::MissingFrontmatter { ref path } if path == "pages/a.md"));
    assert_eq!(missing.message(), "content is missing YAML frontmatter: pages/a.md");

    let malformed = document_parts("pages/a.md", "---\ntitle: T\nbody").unwrap_err();
    assert!(matches!(malformed, ContentError::MalformedFrontmatter { ref path } if path == "pages/a.md"));
}

#[test]
fn slugs_come_from_the_file_name() {
    assert_eq!(slug_from_path("posts/nested/deep-post.md").unwrap(), "deep-post");
    assert!(matches!(slug_from_path("posts/"), Err(ContentError::InvalidFilename { .. })));
    assert!(matches!(slug_from_path("posts/a.md.txt"), Err(ContentError::InvalidFilename { .. })));
}

#[test]
fn invalid_dates_are_rejected_with_the_field_and_value() {
    let source = "---\ntitle: Hello\npublishDate: 2025-02-30\n---\nbody";

    let error = parse_post("posts/hello.md", source).unwrap_err();

    assert!(matches!(
        error,
        ContentError::InvalidDate { ref path, field: "publishDate", ref value, .. }
            if path == "posts/hello.md" && value == "2025-02-30"
    ));

    let late = "---\ntitle: Hello\npublishDate: 2025-02-01\nlastEdit: soon\n---\nbody";
    let error = parse_post("posts/hello.md", late).unwrap_err();
    assert!(matches!(error, ContentError::InvalidDate { field: "lastEdit", .. }));
}

#[test]
fn rendering_failures_are_reported_with_the_path() {
    let error = page_from_parts(
        "pages/a.md",
        "a".to_owned(),
        Ok(PageFrontmatter { title: Some("A".to_owned()), kind: None, last_edit: None }),
        Err(std::fmt::Error),
    )
    .unwrap_err();

    assert!(matches!(error, ContentError::Render { ref path, .. } if path == "pages/a.md"));
    assert_eq!(error.message(), "could not render Markdown in pages/a.md");
}

#[test]
fn dates_display_as_iso_calendar_dates() {
    assert_eq!(Date { year: 2025, month: 7, day: 5 }.display().as_deref(), Some("2025-07-05"));
    assert_eq!(Date { year: 2025, month: 2, day: 30 }.display(), None);
}

#[test]
fn dates_exist_only_on_the_calendar() {
    assert_eq!(Date { year: 2024, month: 2, day: 29 }.display().as_deref(), Some("2024-02-29"));
    assert_eq!(Date { year: 2000, month: 2, day: 29 }.display().as_deref(), Some("2000-02-29"));
    assert_eq!(Date { year: 1900, month: 2, day: 29 }.display(), None);
    assert_eq!(Date { year: 2023, month: 4, day: 31 }.display(), None);
    assert_eq!(Date { year: 2023, month: 13, day: 1 }.display(), None);
    assert_eq!(Date { year: 262143, month: 1, day: 1 }.display(), None);
}

#[test]
fn dates_outside_four_digit_years_show_with_a_sign() {
    assert_eq!(Date { year: 0, month: 1, day: 1 }.display().as_deref(), Some("0000-01-01"));
    assert_eq!(Date { year: -5, month: 1, day: 1 }.display().as_deref(), Some("-0005-01-01"));
    assert_eq!(Date { year: 10000, month: 12, day: 31 }.display().as_deref(), Some("+10000-12-31"));
    assert_eq!(Date { year: -262143, month: 1, day: 1 }.display().as_deref(), Some("-262143-01-01"));
    assert_eq!(Date { year: -262144, month: 12, day: 31 }.display(), None);
}

#[test]
fn an_invalid_date_keeps_the_date_parser_error() {
    let source = "---\ntitle: Hello\npublishDate: 2025-02-30\n---\nbody";
    let expected = chrono::NaiveDate::parse_from_str("2025-02-30", "%Y-%m-%d").unwrap_err();

    let error = parse_post("posts/hello.md", source).unwrap_err();

    assert!(matches!(error, ContentError::InvalidDate { source, .. } if source == expected));
}

#[test]
fn parsed_dates_are_calendar_days_that_show() {
    let source = "---\ntitle: Hello\npublishDate: 2024-02-29\nlastEdit: 2024-03-01\n---\nbody";

    let post = parse_post("posts/hello.md", source).unwrap();

    assert_eq!(post.publish_date.display().as_deref(), Some("2024-02-29"));
    assert_eq!(post.last_edit.unwrap().display().as_deref(), Some("2024-03-01"));
}
