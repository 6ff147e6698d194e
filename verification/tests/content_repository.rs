use dathagerty::content::embedded::parse_request;
use dathagerty::content::{
    ContentError, EmbeddedContentRepository, ModuleData, PageFrontmatter, ParseOutcome, ParseRequest,
    PostFrontmatter, ReadingData, SiteData,
};

const PAGE: &str = "---\ntitle: Fixture\n---\nFixture page";

fn post(title: &str, date: &str, draft: bool, tags: &[&str]) -> String {
    format!(
        "---\ntitle: {title}\npublishDate: {date}\ndraft: {draft}\ntags: [{}]\n---\nFixture post",
        tags.join(", ")
    )
}

fn module(name: &str, description: &str, license: &str) -> ModuleData {
    ModuleData {
        repository_url: format!("https://example.com/{name}"),
        import_path: format!("dathagerty.com/go/{name}"),
        name: name.to_owned(),
        description: description.to_owned(),
        license: license.to_owned(),
    }
}

fn data() -> SiteData {
    SiteData {
        reading: ReadingData {
            current: vec!["Current book".to_owned()],
            tbr: vec!["Future book".to_owned()],
        },
        words: vec!["deliriums".to_owned(), "directory".to_owned()],
        slogans: vec!["a little rusty".to_owned(), "value-sized".to_owned()],
        modules: vec![
            module("zulu", "The last module.", "MIT"),
            module("alpha", "The first module.", "WTFPL"),
        ],
    }
}

fn fixture_files() -> Vec<(String, Vec<u8>)> {
    vec![
        ("pages/root.md".into(), PAGE.as_bytes().to_vec()),
        ("pages/about.md".into(), PAGE.as_bytes().to_vec()),
        ("pages/reading.md".into(), PAGE.as_bytes().to_vec()),
        ("posts/zeta.md".into(), post("Zeta", "2025-01-02", false, &["rust", "meta"]).into_bytes()),
        ("posts/alpha.md".into(), post("Alpha", "2025-01-02", false, &["rust"]).into_bytes()),
        ("posts/older.md".into(), post("Older", "2024-04-03", false, &["meta"]).into_bytes()),
        ("posts/draft.md".into(), post("Draft", "2026-06-01", true, &["hidden"]).into_bytes()),
        ("data.json".into(), b"{}".to_vec()),
    ]
}

fn yaml_fields(yaml: &str) -> serde_yaml_ng::Mapping {
    serde_yaml_ng::from_str(yaml).unwrap()
}

fn text_field(fields: &serde_yaml_ng::Mapping, key: &str) -> Option<String> {
    fields.get(key).and_then(|value| value.as_str()).map(str::to_owned)
}

fn page_frontmatter(yaml: &str) -> PageFrontmatter {
    let fields = yaml_fields(yaml);
    PageFrontmatter {
        title: text_field(&fields, "title"),
        kind: text_field(&fields, "kind"),
        last_edit: text_field(&fields, "lastEdit"),
    }
}

fn post_frontmatter(yaml: &str) -> PostFrontmatter {
    let fields = yaml_fields(yaml);
    PostFrontmatter {
        title: text_field(&fields, "title"),
        publish_date: text_field(&fields, "publishDate"),
        last_edit: text_field(&fields, "lastEdit"),
        kind: text_field(&fields, "kind"),
        draft: fields.get("draft").and_then(|value| value.as_bool()).unwrap_or(false),
        summary: text_field(&fields, "summary"),
        tags: fields
            .get("tags")
            .and_then(|value| value.as_sequence())
            .map(|tags| tags.iter().filter_map(|tag| tag.as_str().map(str::to_owned)).collect())
            .unwrap_or_default(),
    }
}

fn html(markdown: &str) -> String {
    format!("<p>{markdown}</p>\n")
}

/// What the parsers make of each file, with `site` standing for the parsed
/// site data.
fn outcomes(files: &[(String, Vec<u8>)], site: &Result<SiteData, String>) -> Vec<ParseOutcome> {
    files
        .iter()
        .map(|(path, bytes)| match parse_request(path, bytes) {
            ParseRequest::Nothing => ParseOutcome::Nothing,
            ParseRequest::SiteData { .. } => ParseOutcome::SiteData(match site {
                Ok(data) => Ok(data.clone()),
                Err(json) => Err(serde_json::from_str::<serde_json::Value>(json).unwrap_err()),
            }),
            ParseRequest::Page { yaml, markdown } => {
                ParseOutcome::Page(Ok(page_frontmatter(&yaml)), Ok(html(&markdown)))
            }
            ParseRequest::Post { yaml, markdown } => {
                ParseOutcome::Post(Ok(post_frontmatter(&yaml)), Ok(html(&markdown)))
            }
        })
        .collect()
}

fn load_with(
    include_drafts: bool,
    files: Vec<(String, Vec<u8>)>,
    site: Result<SiteData, String>,
) -> Result<EmbeddedContentRepository, ContentError> {
    let outcomes = outcomes(&files, &site);
    EmbeddedContentRepository::from_checked_files(include_drafts, files, outcomes).expect("outcomes answer the files")
}

fn fixture_repository(include_drafts: bool) -> EmbeddedContentRepository {
    load_with(include_drafts, fixture_files(), Ok(data())).unwrap()
}

fn load_error(files: Vec<(String, Vec<u8>)>, site: SiteData) -> ContentError {
    load_with(false, files, Ok(site)).unwrap_err()
}

fn slugs(posts: &[dathagerty::content::Post]) -> Vec<&str> {
    posts.iter().map(|post| post.slug.as_str()).collect()
}

#[test]
fn post_indexes_store_only_canonical_positions() {
    let repository = fixture_repository(false);
    let canonical = repository.posts();

    assert_eq!(repository.post("alpha"), Some(canonical[0].clone()));
    assert_eq!(
        repository.posts_by_year(),
        vec![
            (2025, vec![canonical[0].clone(), canonical[1].clone()]),
            (2024, vec![canonical[2].clone()]),
        ]
    );
    assert_eq!(
        repository.posts_for_tag("meta"),
        Some(vec![canonical[1].clone(), canonical[2].clone()])
    );
}

#[test]
fn rejects_a_missing_required_page() {
    let files = fixture_files().into_iter().filter(|(path, _)| path != "pages/reading.md").collect();

    let error = load_error(files, data());

    assert!(matches!(error, ContentError::MissingRequiredPage { slug } if slug == "reading"));
}

#[test]
fn rejects_duplicate_slugs() {
    let mut files = fixture_files();
    files.push((
        "posts/archive/alpha.md".into(),
        post("Duplicate", "2023-01-01", false, &[]).into_bytes(),
    ));

    let error = load_error(files, data());

    let rendered = error.message();
    match error {
        ContentError::DuplicateSlug { kind, slug, first_path, second_path } => {
            assert_eq!(kind, "post");
            assert_eq!(slug, "alpha");
            assert_eq!(first_path, "posts/alpha.md");
            assert_eq!(second_path, "posts/archive/alpha.md");
            assert!(rendered.contains("posts/alpha.md"));
            assert!(rendered.contains("posts/archive/alpha.md"));
        }
        other => panic!("expected duplicate slug error, got {other:?}"),
    }
}

#[test]
fn rejects_malformed_json() {
    let mut files = fixture_files();
    files.retain(|(path, _)| path != "data.json");
    files.push(("data.json".into(), b"{not json}".to_vec()));

    let error = load_with(false, files, Err("{not json}".to_owned())).unwrap_err();

    assert!(matches!(error, ContentError::Json { .. }));
}

#[test]
fn rejects_incomplete_module_metadata() {
    let mut site = data();
    site.modules[1].repository_url = String::new();

    let error = load_error(fixture_files(), site);

    assert!(matches!(error, ContentError::InvalidModule { index: 1, field: "repositoryUrl" }));
}

#[test]
fn rejects_module_metadata_with_surrounding_whitespace() {
    let mut site = data();
    site.modules[1].name = " alpha".to_owned();

    let error = load_error(fixture_files(), site);

    assert!(matches!(error, ContentError::InvalidModule { index: 1, field: "name" }));
}

#[test]
fn rejects_duplicate_module_paths() {
    let mut site = data();
    site.modules[0].import_path = "dathagerty.com/go/alpha".to_owned();

    let error = load_error(fixture_files(), site);

    assert!(matches!(
        error,
        ContentError::DuplicateModulePath { import_path } if import_path == "dathagerty.com/go/alpha"
    ));
}

#[test]
fn rejects_repository_urls_that_are_not_valid_https_urls() {
    for invalid_url in ["not a url", "http://example.com/alpha", "https://"] {
        let mut site = data();
        site.modules[1].repository_url = invalid_url.to_owned();

        let error = load_error(fixture_files(), site);

        assert!(error.message().contains("invalid repositoryUrl"));
        assert!(matches!(error, ContentError::InvalidModule { index: 1, field: "repositoryUrl" }));
    }
}

#[test]
fn rejects_invalid_or_mismatched_vanity_module_paths() {
    let mut wrong_namespace = data();
    wrong_namespace.modules[1].import_path = "example.com/go/alpha".to_owned();
    let mut wrong_name = data();
    wrong_name.modules[1].import_path = "dathagerty.com/go/beta".to_owned();
    let mut invalid_segment = data();
    invalid_segment.modules[1].import_path = "dathagerty.com/go/bad name".to_owned();
    invalid_segment.modules[1].name = "bad name".to_owned();

    for site in [wrong_namespace, wrong_name, invalid_segment] {
        let error = load_error(fixture_files(), site);

        assert!(matches!(error, ContentError::InvalidModule { index: 1, field: "modulePath" }));
    }
}

#[test]
fn rejects_invalid_utf8() {
    let mut files = fixture_files();
    files.push(("pages/broken.md".into(), vec![0xff]));

    let error = load_error(files, data());

    assert!(matches!(error, ContentError::Utf8 { .. }));
}

#[test]
fn production_excludes_drafts() {
    let repository = fixture_repository(false);

    assert_eq!(repository.post("draft"), None);
    assert!(repository.posts().iter().all(|post| !post.draft));
}

#[test]
fn development_includes_drafts() {
    let repository = fixture_repository(true);

    assert_eq!(repository.post("draft").unwrap().title, "Draft");
    assert_eq!(repository.posts()[0].slug, "draft");
}

#[test]
fn posts_are_newest_first_with_a_slug_tie_break() {
    let repository = fixture_repository(false);

    assert_eq!(slugs(&repository.posts()), ["alpha", "zeta", "older"]);
}

#[test]
fn year_groups_are_descending_and_keep_post_order() {
    let repository = fixture_repository(false);

    let groups = repository.posts_by_year();

    assert_eq!(groups.iter().map(|(year, _)| *year).collect::<Vec<_>>(), [2025, 2024]);
    assert_eq!(slugs(&groups[0].1), ["alpha", "zeta"]);
}

#[test]
fn tags_are_alphabetical_with_post_counts() {
    let repository = fixture_repository(false);

    let tags = repository.tags();

    assert_eq!(
        tags.iter().map(|tag| (tag.name.as_str(), tag.post_count)).collect::<Vec<_>>(),
        [("meta", 2), ("rust", 2)]
    );
}

#[test]
fn tag_lookup_returns_ordered_posts_and_none_for_unknown_tags() {
    let repository = fixture_repository(false);

    let posts = repository.posts_for_tag("meta").unwrap();

    assert_eq!(slugs(&posts), ["zeta", "older"]);
    assert_eq!(repository.posts_for_tag("missing"), None);
}

#[test]
fn modules_are_alphabetical_and_support_lookup() {
    let repository = fixture_repository(false);

    let modules = repository.modules();

    assert_eq!(modules.iter().map(|module| module.name.as_str()).collect::<Vec<_>>(), ["alpha", "zulu"]);
    let alpha = repository.module("alpha").unwrap();
    assert_eq!(alpha.import_path, "dathagerty.com/go/alpha");
    assert_eq!(alpha.repository_url, "https://example.com/alpha");
    assert_eq!(alpha.description, "The first module.");
    assert_eq!(alpha.license, "WTFPL");
    assert_eq!(repository.module("missing"), None);
}

#[test]
fn branding_is_nonempty_and_selected_from_its_collections() {
    let repository = fixture_repository(false);

    let branding = repository.branding();

    assert!(!branding.word.is_empty());
    assert!(!branding.slogan.is_empty());
    assert!(["deliriums", "directory"].contains(&branding.word.as_str()));
    assert!(["a little rusty", "value-sized"].contains(&branding.slogan.as_str()));
}

#[test]
fn unknown_page_and_post_lookups_return_none() {
    let repository = fixture_repository(false);

    assert_eq!(repository.page("missing"), None);
    assert_eq!(repository.post("missing"), None);
    assert_eq!(repository.page("root").unwrap().slug, "root");
}

#[test]
fn pages_carry_their_frontmatter_and_rendered_body() {
    let repository = fixture_repository(false);

    let about = repository.page("about").unwrap();

    assert_eq!(about.title, "Fixture");
    assert_eq!(about.html, "<p>Fixture page</p>\n");
    assert_eq!(about.last_edit, None);
}

#[test]
fn file_order_does_not_change_what_is_served() {
    let mut reversed = fixture_files();
    reversed.reverse();
    let mut site = data();
    site.modules.reverse();
    let forward = fixture_repository(true);
    let backward = load_with(true, reversed, Ok(site)).unwrap();

    assert_eq!(forward.posts(), backward.posts());
    assert_eq!(forward.modules(), backward.modules());
    assert_eq!(forward.tags(), backward.tags());
    assert_eq!(forward.posts_by_year(), backward.posts_by_year());
    for slug in ["root", "about", "reading", "missing"] {
        assert_eq!(forward.page(slug), backward.page(slug));
    }
    for tag in ["rust", "meta", "hidden", "missing"] {
        assert_eq!(forward.posts_for_tag(tag), backward.posts_for_tag(tag));
    }
    for name in ["alpha", "zulu", "missing"] {
        assert_eq!(forward.module(name), backward.module(name));
    }
}

#[test]
fn year_groups_read_in_turn_are_the_posts() {
    let repository = fixture_repository(true);

    let flattened: Vec<_> = repository.posts_by_year().into_iter().flat_map(|(_, posts)| posts).collect();

    assert_eq!(flattened, repository.posts());
    assert_eq!(
        repository.posts_by_year().iter().map(|(year, _)| *year).collect::<Vec<_>>(),
        [2026, 2025, 2024]
    );
}

#[test]
fn tag_counts_match_tag_lookups() {
    let repository = fixture_repository(true);

    for tag in repository.tags() {
        assert_eq!(repository.posts_for_tag(&tag.name).unwrap().len(), tag.post_count);
    }
    assert_eq!(repository.posts_for_tag("hidden").map(|posts| posts.len()), Some(1));
}

#[test]
fn every_served_post_is_found_by_its_slug() {
    let repository = fixture_repository(true);

    for post in repository.posts() {
        assert_eq!(repository.post(&post.slug), Some(post));
    }
}

#[test]
fn a_post_with_an_invalid_date_is_rejected_with_its_value() {
    let mut files = fixture_files();
    files.push(("posts/late.md".into(), post("Late", "2025-13-01", false, &[]).into_bytes()));

    let error = load_error(files, data());

    assert_eq!(error.message(), "invalid publishDate date \"2025-13-01\" in posts/late.md");
    assert!(matches!(error, ContentError::InvalidDate { field: "publishDate", .. }));
}

#[test]
fn unexpected_files_and_a_second_data_file_are_rejected() {
    let mut files = fixture_files();
    files.push(("notes.txt".into(), b"hello".to_vec()));
    let error = load_error(files, data());
    assert!(matches!(error, ContentError::UnexpectedFile { ref path } if path == "notes.txt"));
    assert_eq!(error.message(), "unexpected file in embedded content: notes.txt");

    let mut files = fixture_files();
    files.push(("data.json".into(), b"{}".to_vec()));
    assert!(matches!(load_error(files, data()), ContentError::DuplicateData));

    let files = fixture_files().into_iter().filter(|(path, _)| path != "data.json").collect();
    assert!(matches!(load_error(files, data()), ContentError::MissingData));
}

#[test]
fn empty_branding_collections_are_rejected() {
    let mut site = data();
    site.words.clear();
    let error = load_error(fixture_files(), site);
    assert!(matches!(error, ContentError::EmptyBranding { collection: "words" }));
    assert_eq!(error.message(), "branding collection words must not be empty");

    let mut site = data();
    site.slogans.clear();
    assert!(matches!(load_error(fixture_files(), site), ContentError::EmptyBranding { collection: "slogans" }));
}

#[test]
fn a_repeated_module_is_reported_by_its_path() {
    let mut site = data();
    site.modules.push(module("alpha", "Again.", "MIT"));

    let error = load_error(fixture_files(), site);

    assert!(matches!(
        error,
        ContentError::DuplicateModulePath { ref import_path } if import_path == "dathagerty.com/go/alpha"
    ));
    assert_eq!(error.message(), "duplicate module path: dathagerty.com/go/alpha");
}

#[test]
fn invalid_module_messages_name_the_index_and_field() {
    let mut site = data();
    site.modules[1].license = "MIT ".to_owned();

    let error = load_error(fixture_files(), site);

    assert_eq!(error.message(), "module 1 has invalid license");
}

#[test]
fn outcomes_that_do_not_answer_the_files_are_refused() {
    let files = fixture_files();
    let mut outcomes = outcomes(&files, &Ok(data()));
    outcomes[0] = ParseOutcome::Nothing;

    assert!(EmbeddedContentRepository::from_checked_files(false, files, outcomes).is_none());
}

#[test]
fn invalid_utf8_keeps_the_decoder_error() {
    let bytes = vec![b'a', 0xff];
    let expected = std::str::from_utf8(&bytes).unwrap_err();
    let mut files = fixture_files();
    files.push(("pages/broken.md".into(), bytes));

    let error = load_error(files, data());

    assert!(matches!(error, ContentError::Utf8 { ref path, source } if path == "pages/broken.md" && source == expected));
}

#[test]
fn every_served_date_shows() {
    for include_drafts in [false, true] {
        let repository = fixture_repository(include_drafts);
        for post in repository.posts() {
            assert!(post.publish_date.display().is_some());
            assert!(post.last_edit.map_or(true, |date| date.display().is_some()));
        }
    }
}
