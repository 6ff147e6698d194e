//! Content documents: YAML frontmatter between `---` lines, then Markdown.
//! The frontmatter is deserialised and the Markdown rendered by the caller's
//! parsers; this module splits documents, derives slugs from file names, and
//! builds pages and posts from what the parsers produced.
use vstd::prelude::*;

use crate::bindings::{file_name, parse_date, parsed_date, path_file_name};
use crate::content::{ContentError, ContentErrorView, Date, Page, Post};
use crate::content::model::{PageView, PostView};
use crate::routes::{all_slug_chars, is_simple_segment};
use crate::text::{chars_of, chars_occur_at, has_prefix, has_suffix, occurs_at, opt_view, strings_view, string_of};

verus! {

broadcast use vstd::string::group_string_axioms;

/// A page's frontmatter fields.
#[derive(Clone, Debug, PartialEq, Eq)]
pub struct PageFrontmatter {
    pub title: Option<String>,
    pub kind: Option<String>,
    pub last_edit: Option<String>,
}

pub struct PageFrontmatterView {
    pub title: Option<Seq<char>>,
    pub kind: Option<Seq<char>>,
    pub last_edit: Option<Seq<char>>,
}

impl View for PageFrontmatter {
    type V = PageFrontmatterView;

    open spec fn view(&self) -> PageFrontmatterView {
        PageFrontmatterView { title: opt_view(self.title), kind: opt_view(self.kind), last_edit: opt_view(self.last_edit) }
    }
}

/// A post's frontmatter fields; `draft` and `tags` have defaults.
#[derive(Clone, Debug, PartialEq, Eq)]
pub struct PostFrontmatter {
    pub title: Option<String>,
    pub publish_date: Option<String>,
    pub last_edit: Option<String>,
    pub kind: Option<String>,
    pub draft: bool,
    pub summary: Option<String>,
    pub tags: Vec<String>,
}

pub struct PostFrontmatterView {
    pub title: Option<Seq<char>>,
    pub publish_date: Option<Seq<char>>,
    pub last_edit: Option<Seq<char>>,
    pub kind: Option<Seq<char>>,
    pub draft: bool,
    pub summary: Option<Seq<char>>,
    pub tags: Seq<Seq<char>>,
}

impl View for PostFrontmatter {
    type V = PostFrontmatterView;

    open spec fn view(&self) -> PostFrontmatterView {
        PostFrontmatterView {
            title: opt_view(self.title),
            publish_date: opt_view(self.publish_date),
            last_edit: opt_view(self.last_edit),
            kind: opt_view(self.kind),
            draft: self.draft,
            summary: opt_view(self.summary),
            tags: strings_view(self.tags@),
        }
    }
}

/// The slug of a content file: its file name without the `.md` suffix,
/// when that is a non-empty run of ASCII letters, digits, `-` and `_`.
pub open spec fn spec_slug(path: Seq<char>) -> Option<Seq<char>> {
    match path_file_name(path) {
        Some(name) => {
            let stem = name.take(name.len() - ".md"@.len());
            if has_suffix(name, ".md"@) && is_simple_segment(stem) {
                Some(stem)
            } else {
                None
            }
        },
        None => None,
    }
}

/// The slug of a content file, or `InvalidFilename` naming its path.
pub fn slug_from_path(path: &str) -> (slug: Result<String, ContentError>)
    ensures
        match slug {
            Ok(s) => spec_slug(path@) == Some(s@),
            Err(e) => spec_slug(path@) is None && e@ == (ContentErrorView::InvalidFilename { path: path@ }),
        },
{
    let invalid = ContentError::InvalidFilename { path: path.to_string() };
    let name = match file_name(path) {
        Some(name) => name,
        None => return Err(invalid),
    };
    let v = chars_of(name.as_str());
    let suffix = chars_of(".md");
    if v.len() < suffix.len() || !chars_occur_at(&v, &suffix, v.len() - suffix.len()) {
        return Err(invalid);
    }
    let stem_len = v.len() - suffix.len();
    let stem = string_of(&v, 0, stem_len);
    let stem_chars = chars_of(stem.as_str());
    if stem_len == 0 || !all_slug_chars(&stem_chars) {
        return Err(invalid);
    }
    Ok(stem)
}

/// The position of the first occurrence of `pattern` in `s` at or after `from`.
pub open spec fn find_first(s: Seq<char>, pattern: Seq<char>, from: nat) -> Option<nat>
    decreases s.len() - from,
{
    if from + pattern.len() > s.len() {
        None
    } else if occurs_at(s, pattern, from as int) {
        Some(from)
    } else {
        proof {
            if pattern.len() == 0 {
                assert(s.subrange(from as int, from as int) =~= pattern);
            }
        }
        find_first(s, pattern, from + 1)
    }
}

/// How a content document splits: slug, frontmatter YAML and Markdown body.
/// The text must open with `---\n`; the frontmatter runs to the first
/// `\n---\n`, and the body is all that follows it.
pub open spec fn spec_document_parts(path: Seq<char>, source: Seq<char>) -> Result<
    (Seq<char>, Seq<char>, Seq<char>),
    ContentErrorView,
> {
    match spec_slug(path) {
        None => Err(ContentErrorView::InvalidFilename { path }),
        Some(slug) => if !has_prefix(source, "---\n"@) {
            Err(ContentErrorView::MissingFrontmatter { path })
        } else {
            let rest = source.skip("---\n"@.len() as int);
            match find_first(rest, "\n---\n"@, 0) {
                None => Err(ContentErrorView::MalformedFrontmatter { path }),
                Some(i) => Ok((slug, rest.take(i as int), rest.skip((i + "\n---\n"@.len()) as int))),
            }
        },
    }
}

/// The first position at or after `from` where `pattern` occurs in `v`.
fn find_in(v: &Vec<char>, pattern: &Vec<char>, from: usize) -> (found: Option<usize>)
    requires
        from <= v.len(),
    ensures
        match found {
            Some(i) => find_first(v@, pattern@, from as nat) == Some(i as nat) && i + pattern@.len() <= v@.len(),
            None => find_first(v@, pattern@, from as nat) is None,
        },
    decreases v.len() - from,
{
    if pattern.len() > v.len() - from {
        return None;
    }
    if chars_occur_at(v, pattern, from) {
        return Some(from);
    }
    if pattern.len() == 0 {
        assert(occurs_at(v@, pattern@, from as int)) by {
            assert(v@.subrange(from as int, from as int) =~= pattern@);
        }
    }
    find_in(v, pattern, from + 1)
}

/// Splits a content document into slug, frontmatter and body.
pub fn document_parts(path: &str, source: &str) -> (parts: Result<(String, String, String), ContentError>)
    ensures
        match parts {
            Ok((slug, yaml, markdown)) => spec_document_parts(path@, source@) == Ok::<_, ContentErrorView>((slug@, yaml@, markdown@)),
            Err(e) => spec_document_parts(path@, source@) == Err::<(Seq<char>, Seq<char>, Seq<char>), _>(e@),
        },
{
    let slug = match slug_from_path(path) {
        Ok(slug) => slug,
        Err(e) => return Err(e),
    };
    let v = chars_of(source);
    let open = chars_of("---\n");
    if !(open.len() <= v.len() && chars_occur_at(&v, &open, 0)) {
        return Err(ContentError::MissingFrontmatter { path: path.to_string() });
    }
    let rest = string_of(&v, open.len(), v.len());
    let r = chars_of(rest.as_str());
    let close = chars_of("\n---\n");
    match find_in(&r, &close, 0) {
        None => Err(ContentError::MalformedFrontmatter { path: path.to_string() }),
        Some(i) => {
            let yaml = string_of(&r, 0, i);
            let markdown = string_of(&r, i + close.len(), r.len());
            Ok((slug, yaml, markdown))
        },
    }
}

/// The format of frontmatter dates.
pub open spec fn date_format() -> Seq<char> {
    "%Y-%m-%d"@
}

/// A frontmatter date field: the date it denotes, or an `InvalidDate` error
/// naming the file, the field and the value.
pub open spec fn spec_date_field(path: Seq<char>, field: Seq<char>, value: Seq<char>) -> Result<Date, ContentErrorView> {
    match parsed_date(value, date_format()) {
        Ok(d) => Ok(d),
        Err(source) => Err(ContentErrorView::InvalidDate { path, field, value, source }),
    }
}

/// An optional frontmatter date field.
pub open spec fn spec_optional_date(path: Seq<char>, field: Seq<char>, value: Option<Seq<char>>) -> Result<
    Option<Date>,
    ContentErrorView,
> {
    match value {
        None => Ok(None),
        Some(v) => match spec_date_field(path, field, v) {
            Ok(d) => Ok(Some(d)),
            Err(e) => Err(e),
        },
    }
}

fn date_field(path: &str, field: &'static str, value: String) -> (d: Result<Date, ContentError>)
    ensures
        match d {
            Ok(date) => spec_date_field(path@, field@, value@) == Ok::<_, ContentErrorView>(date),
            Err(e) => spec_date_field(path@, field@, value@) == Err::<Date, _>(e@),
        },
        d matches Ok(date) ==> date.on_calendar(),
{
    match parse_date(value.as_str(), "%Y-%m-%d") {
        Ok(date) => Ok(date),
        Err(source) => Err(ContentError::InvalidDate { path: path.to_string(), field, value, source }),
    }
}

fn optional_date(path: &str, field: &'static str, value: Option<String>) -> (d: Result<Option<Date>, ContentError>)
    ensures
        match d {
            Ok(date) => spec_optional_date(path@, field@, opt_view(value)) == Ok::<_, ContentErrorView>(date),
            Err(e) => spec_optional_date(path@, field@, opt_view(value)) == Err::<Option<Date>, _>(e@),
        },
        d matches Ok(Some(date)) ==> date.on_calendar(),
{
    match value {
        None => Ok(None),
        Some(v) => match date_field(path, field, v) {
            Ok(date) => Ok(Some(date)),
            Err(e) => Err(e),
        },
    }
}

/// The view of a frontmatter parse outcome.
pub open spec fn page_frontmatter_view(f: Result<PageFrontmatter, serde_yaml_ng::Error>) -> Result<
    PageFrontmatterView,
    serde_yaml_ng::Error,
> {
    match f {
        Ok(fm) => Ok(fm@),
        Err(e) => Err(e),
    }
}

/// The view of a frontmatter parse outcome.
pub open spec fn post_frontmatter_view(f: Result<PostFrontmatter, serde_yaml_ng::Error>) -> Result<
    PostFrontmatterView,
    serde_yaml_ng::Error,
> {
    match f {
        Ok(fm) => Ok(fm@),
        Err(e) => Err(e),
    }
}

/// The view of a rendering outcome.
pub open spec fn html_view(h: Result<String, std::fmt::Error>) -> Result<Seq<char>, std::fmt::Error> {
    match h {
        Ok(s) => Ok(s@),
        Err(e) => Err(e),
    }
}

/// A page from its file's path and slug, its parsed frontmatter and its
/// rendered body. Checked in order: the frontmatter parsed, it has a title,
/// its `lastEdit` (if any) is a date, and the body rendered.
pub open spec fn spec_page(
    path: Seq<char>,
    slug: Seq<char>,
    frontmatter: Result<PageFrontmatterView, serde_yaml_ng::Error>,
    html: Result<Seq<char>, std::fmt::Error>,
) -> Result<PageView, ContentErrorView> {
    match frontmatter {
        Err(source) => Err(ContentErrorView::Yaml { path, source }),
        Ok(fm) => match fm.title {
            None => Err(ContentErrorView::MissingField { path, field: "title"@ }),
            Some(title) => match spec_optional_date(path, "lastEdit"@, fm.last_edit) {
                Err(e) => Err(e),
                Ok(last_edit) => match html {
                    Err(source) => Err(ContentErrorView::Render { path, source }),
                    Ok(html) => Ok(PageView { slug, title, kind: fm.kind, last_edit, html }),
                },
            },
        },
    }
}

/// Builds a page from what the frontmatter parser and the Markdown renderer
/// made of its document.
pub fn page_from_parts(
    path: &str,
    slug: String,
    frontmatter: Result<PageFrontmatter, serde_yaml_ng::Error>,
    html: Result<String, std::fmt::Error>,
) -> (page: Result<Page, ContentError>)
    ensures
        match page {
            Ok(p) => spec_page(path@, slug@, page_frontmatter_view(frontmatter), html_view(html)) == Ok::<_, ContentErrorView>(p@),
            Err(e) => spec_page(path@, slug@, page_frontmatter_view(frontmatter), html_view(html)) == Err::<PageView, _>(e@),
        },
        page matches Ok(p) ==> p@.dates_on_calendar(),
{
    let fm = match frontmatter {
        Ok(fm) => fm,
        Err(source) => return Err(ContentError::Yaml { path: path.to_string(), source }),
    };
    let title = match fm.title {
        Some(title) => title,
        None => return Err(ContentError::MissingField { path: path.to_string(), field: "title" }),
    };
    let last_edit = match optional_date(path, "lastEdit", fm.last_edit) {
        Ok(d) => d,
        Err(e) => return Err(e),
    };
    let html = match html {
        Ok(h) => h,
        Err(source) => return Err(ContentError::Render { path: path.to_string(), source }),
    };
    Ok(Page { slug, title, kind: fm.kind, last_edit, html })
}

/// A post from its file's path and slug, its parsed frontmatter and its
/// rendered body. Checked in order: the frontmatter parsed, it has a title
/// and a `publishDate`, that is a date, `lastEdit` (if any) is a date, and
/// the body rendered.
pub open spec fn spec_post(
    path: Seq<char>,
    slug: Seq<char>,
    frontmatter: Result<PostFrontmatterView, serde_yaml_ng::Error>,
    html: Result<Seq<char>, std::fmt::Error>,
) -> Result<PostView, ContentErrorView> {
    match frontmatter {
        Err(source) => Err(ContentErrorView::Yaml { path, source }),
        Ok(fm) => match fm.title {
            None => Err(ContentErrorView::MissingField { path, field: "title"@ }),
            Some(title) => match fm.publish_date {
                None => Err(ContentErrorView::MissingField { path, field: "publishDate"@ }),
                Some(publish_value) => match spec_date_field(path, "publishDate"@, publish_value) {
                    Err(e) => Err(e),
                    Ok(publish_date) => match spec_optional_date(path, "lastEdit"@, fm.last_edit) {
                        Err(e) => Err(e),
                        Ok(last_edit) => match html {
                            Err(source) => Err(ContentErrorView::Render { path, source }),
                            Ok(html) => Ok(
                                PostView {
                                    slug,
                                    title,
                                    publish_date,
                                    last_edit,
                                    kind: fm.kind,
                                    draft: fm.draft,
                                    summary: fm.summary,
                                    tags: fm.tags,
                                    html,
                                },
                            ),
                        },
                    },
                },
            },
        },
    }
}

/// A post built from a document keeps what the document says: its slug,
/// and the frontmatter's title, kind, draft flag, summary and tags as they
/// are, and the rendered body as its HTML.
pub proof fn law_post_keeps_its_frontmatter(
    path: Seq<char>,
    slug: Seq<char>,
    fm: PostFrontmatterView,
    html: Result<Seq<char>, std::fmt::Error>,
)
    requires
        spec_post(path, slug, Ok(fm), html) is Ok,
    ensures
        ({
            let p = spec_post(path, slug, Ok(fm), html)->Ok_0;
            &&& p.slug == slug
            &&& fm.title == Some(p.title)
            &&& p.kind == fm.kind
            &&& p.draft == fm.draft
            &&& p.summary == fm.summary
            &&& p.tags == fm.tags
            &&& html == Ok::<Seq<char>, std::fmt::Error>(p.html)
        }),
{
}

/// A page built from a document keeps its slug, and the frontmatter's
/// title and kind as they are, and the rendered body as its HTML.
pub proof fn law_page_keeps_its_frontmatter(
    path: Seq<char>,
    slug: Seq<char>,
    fm: PageFrontmatterView,
    html: Result<Seq<char>, std::fmt::Error>,
)
    requires
        spec_page(path, slug, Ok(fm), html) is Ok,
    ensures
        ({
            let p = spec_page(path, slug, Ok(fm), html)->Ok_0;
            &&& p.slug == slug
            &&& fm.title == Some(p.title)
            &&& p.kind == fm.kind
            &&& html == Ok::<Seq<char>, std::fmt::Error>(p.html)
        }),
{
}

/// Builds a post from what the frontmatter parser and the Markdown renderer
/// made of its document.
pub fn post_from_parts(
    path: &str,
    slug: String,
    frontmatter: Result<PostFrontmatter, serde_yaml_ng::Error>,
    html: Result<String, std::fmt::Error>,
) -> (post: Result<Post, ContentError>)
    ensures
        match post {
            Ok(p) => spec_post(path@, slug@, post_frontmatter_view(frontmatter), html_view(html)) == Ok::<_, ContentErrorView>(p@),
            Err(e) => spec_post(path@, slug@, post_frontmatter_view(frontmatter), html_view(html)) == Err::<PostView, _>(e@),
        },
        post matches Ok(p) ==> p@.dates_on_calendar(),
{
    let fm = match frontmatter {
        Ok(fm) => fm,
        Err(source) => return Err(ContentError::Yaml { path: path.to_string(), source }),
    };
    let title = match fm.title {
        Some(title) => title,
        None => return Err(ContentError::MissingField { path: path.to_string(), field: "title" }),
    };
    let publish_value = match fm.publish_date {
        Some(v) => v,
        None => return Err(ContentError::MissingField { path: path.to_string(), field: "publishDate" }),
    };
    let publish_date = match date_field(path, "publishDate", publish_value) {
        Ok(d) => d,
        Err(e) => return Err(e),
    };
    let last_edit = match optional_date(path, "lastEdit", fm.last_edit) {
        Ok(d) => d,
        Err(e) => return Err(e),
    };
    let html = match html {
        Ok(h) => h,
        Err(source) => return Err(ContentError::Render { path: path.to_string(), source }),
    };
    Ok(Post {
        slug,
        title,
        publish_date,
        last_edit,
        kind: fm.kind,
        draft: fm.draft,
        summary: fm.summary,
        tags: fm.tags,
        html,
    })
}

} // verus!
