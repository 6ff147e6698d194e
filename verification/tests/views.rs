use dathagerty::content::{Branding, GoModule, Post, Date};
use dathagerty::flair::{get_tagline, get_word};
use dathagerty::views::{
    commit_href, module_instructions_text, plausible_commit_hash, select_commit_hash, tag_href, PageMetadata,
    RequestView,
};

fn module() -> GoModule {
    GoModule {
        repository_url: "https://git.sr.ht/~gloatingfiddle/example".to_owned(),
        import_path: "dathagerty.com/go/example".to_owned(),
        name: "example".to_owned(),
        description: "An example module.".to_owned(),
        license: "MIT".to_owned(),
    }
}

fn branding() -> Branding {
    Branding { word: "deliriums".to_owned(), slogan: "a little rusty".to_owned() }
}

#[test]
fn railway_revision_takes_precedence_over_local_build_info() {
    let railway = "0123456789abcdef0123456789abcdef01234567";

    assert_eq!(select_commit_hash(Some(railway), Some("abcdef0")), Some(railway));
}

#[test]
fn invalid_railway_revision_falls_back_to_plausible_build_info() {
    assert_eq!(select_commit_hash(Some("not-a-commit"), Some("abcdef0")), Some("abcdef0"));
    assert_eq!(select_commit_hash(Some("1234"), Some("also-invalid")), None);
}

#[test]
fn commit_hashes_are_seven_to_sixty_four_hex_digits() {
    assert!(plausible_commit_hash("abcdef0"));
    assert!(plausible_commit_hash(&"A".repeat(64)));
    assert!(!plausible_commit_hash("abcdef"));
    assert!(!plausible_commit_hash(&"a".repeat(65)));
    assert!(!plausible_commit_hash("abcdefg"));
    assert_eq!(select_commit_hash(None, None), None);
}

#[test]
fn commit_links_point_at_the_site_repository() {
    assert_eq!(
        commit_href("0123456789abcdef0123456789abcdef01234567"),
        "https://github.com/dathagerty/website/commit/0123456789abcdef0123456789abcdef01234567"
    );
}

#[test]
fn tag_links_percent_encode_one_path_segment() {
    let tags = [
        ("c#", "c%23"),
        ("rust/web", "rust%2Fweb"),
        ("what?", "what%3F"),
        ("two words", "two%20words"),
        ("100%", "100%25"),
        ("ordinary-ascii_123", "ordinary-ascii_123"),
        ("caf\u{e9}", "caf%C3%A9"),
        ("a.b~c", "a.b~c"),
    ];

    for (display, encoded) in tags {
        assert_eq!(tag_href(display), format!("/tags/{encoded}"));
    }
}

#[test]
fn module_metadata_carries_go_discovery_data() {
    let metadata = PageMetadata::for_module(&module());
    let view_context = RequestView::new(metadata, branding());

    assert_eq!(view_context.metadata().title, "example | dathagerty.com");
    assert_eq!(view_context.metadata().description, "An example module.");
    assert_eq!(
        view_context.metadata().go.as_ref().unwrap().import_content(),
        "dathagerty.com/go/example git https://git.sr.ht/~gloatingfiddle/example"
    );
}

#[test]
fn go_source_metadata_uses_repository_provider_templates() {
    let sourcehut = module();
    let github = GoModule { repository_url: "https://github.com/dathagerty/example".to_owned(), ..module() };
    let unknown = GoModule { repository_url: "https://code.example/dathagerty/example".to_owned(), ..module() };

    assert_eq!(
        PageMetadata::for_module(&sourcehut).go.unwrap().source_content().unwrap(),
        "dathagerty.com/go/example https://git.sr.ht/~gloatingfiddle/example https://git.sr.ht/~gloatingfiddle/example/tree/main/item{/dir} https://git.sr.ht/~gloatingfiddle/example/tree/main/item{/dir}/{file}#L{line}"
    );
    assert_eq!(
        PageMetadata::for_module(&github).go.unwrap().source_content().unwrap(),
        "dathagerty.com/go/example https://github.com/dathagerty/example https://github.com/dathagerty/example/tree/main{/dir} https://github.com/dathagerty/example/blob/main{/dir}/{file}#L{line}"
    );
    assert_eq!(PageMetadata::for_module(&unknown).go.unwrap().source_content(), None);
}

#[test]
fn go_source_templates_drop_trailing_slashes_of_the_repository() {
    let module = GoModule { repository_url: "https://github.com/dathagerty/example//".to_owned(), ..module() };

    assert_eq!(
        PageMetadata::for_module(&module).go.unwrap().source_content().unwrap(),
        "dathagerty.com/go/example https://github.com/dathagerty/example// https://github.com/dathagerty/example/tree/main{/dir} https://github.com/dathagerty/example/blob/main{/dir}/{file}#L{line}"
    );
}

#[test]
fn module_page_has_install_instructions() {
    let text = module_instructions_text(&module());

    assert_eq!(text.get_command, "$ go get dathagerty.com/go/example");
    assert_eq!(text.import_line, "import \"dathagerty.com/go/example\"");
    assert_eq!(text.package_url, "https://pkg.go.dev/dathagerty.com/go/example");
    assert_eq!(text.godocs_url, "https://godocs.io/dathagerty.com/go/example");
    assert_eq!(text.license_url, "https://git.sr.ht/~gloatingfiddle/example/tree/main/item/LICENSE");
}

#[test]
fn request_view_updates_one_part_at_a_time() {
    let mut view = RequestView::default();
    assert_eq!(view.metadata().title, "dathagerty.com");
    assert_eq!(view.metadata().description, "David Hagerty's personal website and assorted ramblings.");
    assert_eq!(view.snapshot().branding, branding());

    view.set_metadata(PageMetadata::new("About | dathagerty.com".to_owned(), "About".to_owned()));
    assert_eq!(view.metadata().title, "About | dathagerty.com");
    assert_eq!(view.snapshot().branding, branding());

    let other = Branding { word: "directory".to_owned(), slogan: "value-sized".to_owned() };
    view.set_branding(other.clone());
    assert_eq!(view.snapshot().branding, other);
    assert_eq!(view.metadata().title, "About | dathagerty.com");
}

#[test]
fn default_metadata_describes_the_site() {
    let metadata = PageMetadata::default();

    assert_eq!(metadata.title, "dathagerty.com");
    assert_eq!(metadata.description, "David Hagerty's personal website and assorted ramblings.");
    assert_eq!(metadata.go, None);
}

#[test]
fn flair_is_the_standing_word_and_tagline() {
    assert_eq!(get_word(), "deliriums");
    assert_eq!(get_tagline(), "a little rusty");
}

#[test]
fn post_dates_display_for_the_metadata_line() {
    let post = Post {
        slug: "hello".to_owned(),
        title: "Hello".to_owned(),
        publish_date: Date { year: 2025, month: 7, day: 25 },
        last_edit: Some(Date { year: 2025, month: 7, day: 26 }),
        kind: None,
        draft: false,
        summary: None,
        tags: vec![],
        html: String::new(),
    };

    assert_eq!(post.publish_date.display().unwrap(), "2025-07-25");
    assert_eq!(post.last_edit.unwrap().display().unwrap(), "2025-07-26");
}
