//! The content repository built from the site's embedded files: pages,
//! posts, the site data file, and the indexes the pages query.
use vstd::prelude::*;

use crate::bindings::{
    choose_one, parse_url, path_eq, path_has_base, path_starts_with, paths_equal, url_parse, utf8_error, utf8_text,
};
use crate::content::laws::law_year_groups_are_year_filters;
use crate::content::markdown::{
    document_parts, html_view, page_from_parts, page_frontmatter_view, post_from_parts, post_frontmatter_view,
    spec_document_parts, spec_page, spec_post, PageFrontmatter, PageFrontmatterView, PostFrontmatter,
    PostFrontmatterView,
};
use crate::content::model::{copy_strings, GoModuleView, PageView, PostView, TagSummaryView};
use crate::content::order::{
    distinct_page_slugs, distinct_post_slugs, lemma_distinct_post_slugs_rearranged, module_views, modules_in_order,
    page_views, pages_in_order, post_before, post_views, posts_in_order, sort_modules, sort_pages, sort_posts,
};
use crate::content::{Branding, ContentError, ContentErrorView, GoModule, Page, Post, TagSummary};
use crate::routes::{is_valid_module_name, valid_module_name};
use crate::text::{
    append, chars_equal, chars_less, chars_of, lemma_seq_lt_total, lemma_seq_lt_transitive, seq_lt, strings_view,
};

verus! {

broadcast use vstd::string::group_string_axioms;

/// The reading list in the site data (validated for shape, not served).
#[derive(Clone, Debug, PartialEq, Eq)]
pub struct ReadingData {
    pub current: Vec<String>,
    pub tbr: Vec<String>,
}

/// One Go module as the site data lists it.
#[derive(Clone, Debug, PartialEq, Eq)]
pub struct ModuleData {
    pub repository_url: String,
    pub import_path: String,
    pub name: String,
    pub description: String,
    pub license: String,
}

impl View for ModuleData {
    type V = GoModuleView;

    open spec fn view(&self) -> GoModuleView {
        GoModuleView {
            repository_url: self.repository_url@,
            import_path: self.import_path@,
            name: self.name@,
            description: self.description@,
            license: self.license@,
        }
    }
}

/// The site data file: reading list, branding collections, Go modules.
#[derive(Clone, Debug, PartialEq, Eq)]
pub struct SiteData {
    pub reading: ReadingData,
    pub words: Vec<String>,
    pub slogans: Vec<String>,
    pub modules: Vec<ModuleData>,
}

pub struct SiteDataView {
    pub words: Seq<Seq<char>>,
    pub slogans: Seq<Seq<char>>,
    pub modules: Seq<GoModuleView>,
}

impl View for SiteData {
    type V = SiteDataView;

    open spec fn view(&self) -> SiteDataView {
        SiteDataView {
            words: strings_view(self.words@),
            slogans: strings_view(self.slogans@),
            modules: self.modules@.map_values(|m: ModuleData| m@),
        }
    }
}

/// Unicode `White_Space` characters, which `str::trim` removes.
pub open spec fn is_whitespace(c: char) -> bool {
    let n = c as u32;
    (0x9 <= n && n <= 0xd) || n == 0x20 || n == 0x85 || n == 0xa0 || n == 0x1680 || (0x2000 <= n && n
        <= 0x200a) || n == 0x2028 || n == 0x2029 || n == 0x202f || n == 0x205f || n == 0x3000
}

/// A module field that is empty once trimmed, or differs from its trimmed self.
pub open spec fn is_blank_or_padded(v: Seq<char>) -> bool {
    v.len() == 0 || is_whitespace(v[0]) || is_whitespace(v.last())
}

/// Whether a module field is empty or starts or ends with whitespace.
fn blank_or_padded(value: &str) -> (b: bool)
    ensures
        b == is_blank_or_padded(value@),
{
    let v = chars_of(value);
    if v.len() == 0 {
        return true;
    }
    let first = v[0] as u32;
    let last = v[v.len() - 1] as u32;
    let ws = |n: u32| -> (b: bool)
        ensures
            b == ((0x9 <= n && n <= 0xd) || n == 0x20 || n == 0x85 || n == 0xa0 || n == 0x1680 || (0x2000 <= n
                && n <= 0x200a) || n == 0x2028 || n == 0x2029 || n == 0x202f || n == 0x205f || n == 0x3000),
        {
            (0x9 <= n && n <= 0xd) || n == 0x20 || n == 0x85 || n == 0xa0 || n == 0x1680 || (0x2000 <= n && n
                <= 0x200a) || n == 0x2028 || n == 0x2029 || n == 0x202f || n == 0x205f || n == 0x3000
        };
    ws(first) || ws(last)
}

/// The vanity import path of a module named `name`.
pub open spec fn vanity_path(name: Seq<char>) -> Seq<char> {
    "dathagerty.com/go/"@ + name
}

/// Why module `index` of the site data is invalid, if it is: the first of
/// its fields (in the order below) that is blank or padded; a repository
/// URL that is not an `https` URL with a host; a name that is not a valid
/// module name, or an import path other than its vanity path.
pub open spec fn spec_validate_module(index: usize, m: GoModuleView) -> Option<ContentErrorView> {
    if is_blank_or_padded(m.repository_url) {
        Some(ContentErrorView::InvalidModule { index, field: "repositoryUrl"@ })
    } else if is_blank_or_padded(m.import_path) {
        Some(ContentErrorView::InvalidModule { index, field: "modulePath"@ })
    } else if is_blank_or_padded(m.name) {
        Some(ContentErrorView::InvalidModule { index, field: "name"@ })
    } else if is_blank_or_padded(m.description) {
        Some(ContentErrorView::InvalidModule { index, field: "description"@ })
    } else if is_blank_or_padded(m.license) {
        Some(ContentErrorView::InvalidModule { index, field: "license"@ })
    } else if !(match url_parse(m.repository_url) {
        Some((scheme, Some(_))) => scheme == "https"@,
        _ => false,
    }) {
        Some(ContentErrorView::InvalidModule { index, field: "repositoryUrl"@ })
    } else if !is_valid_module_name(m.name) || m.import_path != vanity_path(m.name) {
        Some(ContentErrorView::InvalidModule { index, field: "modulePath"@ })
    } else {
        None
    }
}

/// Checks module `index` of the site data.
pub fn validate_module(index: usize, module: &ModuleData) -> (r: Result<(), ContentError>)
    ensures
        match r {
            Ok(()) => spec_validate_module(index, module@) is None,
            Err(e) => spec_validate_module(index, module@) == Some(e@),
        },
{
    if blank_or_padded(module.repository_url.as_str()) {
        return Err(ContentError::InvalidModule { index, field: "repositoryUrl" });
    }
    if blank_or_padded(module.import_path.as_str()) {
        return Err(ContentError::InvalidModule { index, field: "modulePath" });
    }
    if blank_or_padded(module.name.as_str()) {
        return Err(ContentError::InvalidModule { index, field: "name" });
    }
    if blank_or_padded(module.description.as_str()) {
        return Err(ContentError::InvalidModule { index, field: "description" });
    }
    if blank_or_padded(module.license.as_str()) {
        return Err(ContentError::InvalidModule { index, field: "license" });
    }
    let https_with_host = match parse_url(module.repository_url.as_str()) {
        Some((scheme, Some(_))) => crate::text::str_equal(scheme.as_str(), "https"),
        _ => false,
    };
    if !https_with_host {
        return Err(ContentError::InvalidModule { index, field: "repositoryUrl" });
    }
    let mut vanity = "dathagerty.com/go/".to_string();
    append(&mut vanity, module.name.as_str());
    if !valid_module_name(module.name.as_str()) || module.import_path != vanity {
        return Err(ContentError::InvalidModule { index, field: "modulePath" });
    }
    Ok(())
}

/// What a content file is, by its path: the site data file, a page, a post,
/// or something the content may not hold.
pub enum FileRole {
    Data,
    Page,
    Post,
    Other,
}

pub open spec fn file_role(path: Seq<char>) -> FileRole {
    if paths_equal(path, "data.json"@) {
        FileRole::Data
    } else if path_starts_with(path, "pages"@) {
        FileRole::Page
    } else if path_starts_with(path, "posts"@) {
        FileRole::Post
    } else {
        FileRole::Other
    }
}

/// The role of a content file, by its path.
fn role_of(path: &str) -> (r: FileRole)
    ensures
        r == file_role(path@),
{
    if path_eq(path, "data.json") {
        FileRole::Data
    } else if path_has_base(path, "pages") {
        FileRole::Page
    } else if path_has_base(path, "posts") {
        FileRole::Post
    } else {
        FileRole::Other
    }
}

/// What the loader needs parsed from one content file: the site data's
/// JSON, or a document's YAML frontmatter together with its Markdown body.
pub enum ParseRequest {
    Nothing,
    SiteData { json: String },
    Page { yaml: String, markdown: String },
    Post { yaml: String, markdown: String },
}

pub enum ParseRequestView {
    Nothing,
    SiteData { json: Seq<char> },
    Page { yaml: Seq<char>, markdown: Seq<char> },
    Post { yaml: Seq<char>, markdown: Seq<char> },
}

impl View for ParseRequest {
    type V = ParseRequestView;

    open spec fn view(&self) -> ParseRequestView {
        match *self {
            ParseRequest::Nothing => ParseRequestView::Nothing,
            ParseRequest::SiteData { json } => ParseRequestView::SiteData { json: json@ },
            ParseRequest::Page { yaml, markdown } => ParseRequestView::Page { yaml: yaml@, markdown: markdown@ },
            ParseRequest::Post { yaml, markdown } => ParseRequestView::Post { yaml: yaml@, markdown: markdown@ },
        }
    }
}

/// The request for one file: nothing for text that is not UTF-8, for
/// documents that do not split, and for files of no known role.
pub open spec fn spec_request(path: Seq<char>, bytes: Seq<u8>) -> ParseRequestView {
    if !vstd::utf8::valid_utf8(bytes) {
        ParseRequestView::Nothing
    } else {
        let text = vstd::utf8::decode_utf8(bytes);
        match file_role(path) {
            FileRole::Data => ParseRequestView::SiteData { json: text },
            FileRole::Page => match spec_document_parts(path, text) {
                Ok((_, yaml, markdown)) => ParseRequestView::Page { yaml, markdown },
                Err(_) => ParseRequestView::Nothing,
            },
            FileRole::Post => match spec_document_parts(path, text) {
                Ok((_, yaml, markdown)) => ParseRequestView::Post { yaml, markdown },
                Err(_) => ParseRequestView::Nothing,
            },
            FileRole::Other => ParseRequestView::Nothing,
        }
    }
}

/// What parsing needs doing for one content file.
pub fn parse_request(path: &str, bytes: &[u8]) -> (r: ParseRequest)
    ensures
        r@ == spec_request(path@, bytes@),
{
    let text = match utf8_text(bytes) {
        Ok(text) => text,
        Err(_) => return ParseRequest::Nothing,
    };
    match role_of(path) {
        FileRole::Data => ParseRequest::SiteData { json: text },
        FileRole::Page => match document_parts(path, text.as_str()) {
            Ok((_, yaml, markdown)) => ParseRequest::Page { yaml, markdown },
            Err(_) => ParseRequest::Nothing,
        },
        FileRole::Post => match document_parts(path, text.as_str()) {
            Ok((_, yaml, markdown)) => ParseRequest::Post { yaml, markdown },
            Err(_) => ParseRequest::Nothing,
        },
        FileRole::Other => ParseRequest::Nothing,
    }
}

/// What the parsers made of one content file's request.
pub enum ParseOutcome {
    Nothing,
    SiteData(Result<SiteData, serde_json::Error>),
    Page(Result<PageFrontmatter, serde_yaml_ng::Error>, Result<String, std::fmt::Error>),
    Post(Result<PostFrontmatter, serde_yaml_ng::Error>, Result<String, std::fmt::Error>),
}

pub enum ParseOutcomeView {
    Nothing,
    SiteData(Result<SiteDataView, serde_json::Error>),
    Page(Result<PageFrontmatterView, serde_yaml_ng::Error>, Result<Seq<char>, std::fmt::Error>),
    Post(Result<PostFrontmatterView, serde_yaml_ng::Error>, Result<Seq<char>, std::fmt::Error>),
}

impl View for ParseOutcome {
    type V = ParseOutcomeView;

    open spec fn view(&self) -> ParseOutcomeView {
        match *self {
            ParseOutcome::Nothing => ParseOutcomeView::Nothing,
            ParseOutcome::SiteData(r) => ParseOutcomeView::SiteData(
                match r {
                    Ok(d) => Ok(d@),
                    Err(e) => Err(e),
                },
            ),
            ParseOutcome::Page(f, h) => ParseOutcomeView::Page(page_frontmatter_view(f), html_view(h)),
            ParseOutcome::Post(f, h) => ParseOutcomeView::Post(post_frontmatter_view(f), html_view(h)),
        }
    }
}

/// An outcome answers a request when it is of the same kind.
pub open spec fn answers(request: ParseRequestView, outcome: ParseOutcomeView) -> bool {
    match (request, outcome) {
        (ParseRequestView::Nothing, ParseOutcomeView::Nothing) => true,
        (ParseRequestView::SiteData { .. }, ParseOutcomeView::SiteData(_)) => true,
        (ParseRequestView::Page { .. }, ParseOutcomeView::Page(_, _)) => true,
        (ParseRequestView::Post { .. }, ParseOutcomeView::Post(_, _)) => true,
        _ => false,
    }
}

/// The files read so far: the site data, if met, and the pages and posts
/// with the paths they came from, in the order met.
pub struct ScanView {
    pub data: Option<SiteDataView>,
    pub pages: Seq<(PageView, Seq<char>)>,
    pub posts: Seq<(PostView, Seq<char>)>,
}

/// The path of the page already read with slug `slug`, if any.
pub open spec fn page_path(pages: Seq<(PageView, Seq<char>)>, slug: Seq<char>) -> Option<Seq<char>>
    decreases pages.len(),
{
    if pages.len() == 0 {
        None
    } else if pages.last().0.slug == slug {
        Some(pages.last().1)
    } else {
        page_path(pages.drop_last(), slug)
    }
}

/// The path of the post already read with slug `slug`, if any.
pub open spec fn post_path(posts: Seq<(PostView, Seq<char>)>, slug: Seq<char>) -> Option<Seq<char>>
    decreases posts.len(),
{
    if posts.len() == 0 {
        None
    } else if posts.last().0.slug == slug {
        Some(posts.last().1)
    } else {
        post_path(posts.drop_last(), slug)
    }
}

/// Reading one more file. Its text must be UTF-8. The site data file may
/// occur once and must parse; pages and posts must split, parse and build,
/// and their slugs must be new among their kind; any other file is an error.
pub open spec fn scan_step(st: ScanView, path: Seq<char>, bytes: Seq<u8>, outcome: ParseOutcomeView) -> Result<
    ScanView,
    ContentErrorView,
> {
    if !vstd::utf8::valid_utf8(bytes) {
        Err(ContentErrorView::Utf8 { path, source: utf8_error(bytes) })
    } else {
        let text = vstd::utf8::decode_utf8(bytes);
        match file_role(path) {
            FileRole::Data => if st.data is Some {
                Err(ContentErrorView::DuplicateData)
            } else {
                match outcome {
                    ParseOutcomeView::SiteData(Ok(d)) => Ok(ScanView { data: Some(d), pages: st.pages, posts: st.posts }),
                    ParseOutcomeView::SiteData(Err(source)) => Err(ContentErrorView::Json { path, source }),
                    _ => Err(ContentErrorView::MissingData),
                }
            },
            FileRole::Page => match spec_document_parts(path, text) {
                Err(e) => Err(e),
                Ok((slug, _, _)) => match outcome {
                    ParseOutcomeView::Page(frontmatter, html) => match spec_page(path, slug, frontmatter, html) {
                        Err(e) => Err(e),
                        Ok(page) => match page_path(st.pages, page.slug) {
                            Some(first_path) => Err(
                                ContentErrorView::DuplicateSlug {
                                    kind: "page"@,
                                    slug: page.slug,
                                    first_path,
                                    second_path: path,
                                },
                            ),
                            None => Ok(ScanView { data: st.data, pages: st.pages.push((page, path)), posts: st.posts }),
                        },
                    },
                    _ => Err(ContentErrorView::MissingData),
                },
            },
            FileRole::Post => match spec_document_parts(path, text) {
                Err(e) => Err(e),
                Ok((slug, _, _)) => match outcome {
                    ParseOutcomeView::Post(frontmatter, html) => match spec_post(path, slug, frontmatter, html) {
                        Err(e) => Err(e),
                        Ok(post) => match post_path(st.posts, post.slug) {
                            Some(first_path) => Err(
                                ContentErrorView::DuplicateSlug {
                                    kind: "post"@,
                                    slug: post.slug,
                                    first_path,
                                    second_path: path,
                                },
                            ),
                            None => Ok(ScanView { data: st.data, pages: st.pages, posts: st.posts.push((post, path)) }),
                        },
                    },
                    _ => Err(ContentErrorView::MissingData),
                },
            },
            FileRole::Other => Err(ContentErrorView::UnexpectedFile { path }),
        }
    }
}

/// Reading the first `n` files in order, stopping at the first error.
pub open spec fn scan(files: Seq<(Seq<char>, Seq<u8>)>, outcomes: Seq<ParseOutcomeView>, n: nat) -> Result<
    ScanView,
    ContentErrorView,
>
    decreases n,
{
    if n == 0 {
        Ok(ScanView { data: None, pages: Seq::empty(), posts: Seq::empty() })
    } else {
        match scan(files, outcomes, (n - 1) as nat) {
            Err(e) => Err(e),
            Ok(st) => scan_step(st, files[n - 1].0, files[n - 1].1, outcomes[n - 1]),
        }
    }
}

/// Once reading stops at an error, reading further files gives that error.
proof fn lemma_scan_error_persists(
    files: Seq<(Seq<char>, Seq<u8>)>,
    outcomes: Seq<ParseOutcomeView>,
    k: nat,
    m: nat,
)
    requires
        k <= m,
        scan(files, outcomes, k) is Err,
    ensures
        scan(files, outcomes, m) == scan(files, outcomes, k),
    decreases m,
{
    if m > k {
        lemma_scan_error_persists(files, outcomes, k, (m - 1) as nat);
    }
}

/// The view of the content files.
pub open spec fn files_view(files: Seq<(String, Vec<u8>)>) -> Seq<(Seq<char>, Seq<u8>)> {
    files.map_values(|f: (String, Vec<u8>)| (f.0@, f.1@))
}

/// The views of the parse outcomes.
pub open spec fn outcomes_view(outcomes: Seq<ParseOutcome>) -> Seq<ParseOutcomeView> {
    outcomes.map_values(|o: ParseOutcome| o@)
}

/// The outcomes answer the requests of the files, one by one.
pub open spec fn outcomes_answer(files: Seq<(Seq<char>, Seq<u8>)>, outcomes: Seq<ParseOutcomeView>) -> bool {
    &&& outcomes.len() == files.len()
    &&& forall|i: int| 0 <= i < files.len() ==> answers(spec_request(files[i].0, files[i].1), #[trigger] outcomes[i])
}

/// The files read so far, as the loader holds them.
pub struct Scanned {
    pub data: Option<SiteData>,
    pub pages: Vec<(Page, String)>,
    pub posts: Vec<(Post, String)>,
}

impl View for Scanned {
    type V = ScanView;

    open spec fn view(&self) -> ScanView {
        ScanView {
            data: match self.data {
                Some(d) => Some(d@),
                None => None,
            },
            pages: self.pages@.map_values(|e: (Page, String)| (e.0@, e.1@)),
            posts: self.posts@.map_values(|e: (Post, String)| (e.0@, e.1@)),
        }
    }
}

/// The path of the last page read with `slug`, if any.
fn find_page_path(pages: &Vec<(Page, String)>, slug: &String) -> (r: Option<String>)
    ensures
        crate::text::opt_view(r) == page_path(pages@.map_values(|e: (Page, String)| (e.0@, e.1@)), slug@),
{
    let ghost all = pages@.map_values(|e: (Page, String)| (e.0@, e.1@));
    let mut i = pages.len();
    assert(all.take(i as int) =~= all);
    while i > 0
        invariant
            i <= pages.len(),
            all == pages@.map_values(|e: (Page, String)| (e.0@, e.1@)),
            page_path(all, slug@) == page_path(all.take(i as int), slug@),
        decreases i,
    {
        assert(all.take(i as int).drop_last() =~= all.take(i - 1));
        if pages[i - 1].0.slug == *slug {
            return Some(pages[i - 1].1.clone());
        }
        i -= 1;
    }
    None
}

/// The path of the last post read with `slug`, if any.
fn find_post_path(posts: &Vec<(Post, String)>, slug: &String) -> (r: Option<String>)
    ensures
        crate::text::opt_view(r) == post_path(posts@.map_values(|e: (Post, String)| (e.0@, e.1@)), slug@),
{
    let ghost all = posts@.map_values(|e: (Post, String)| (e.0@, e.1@));
    let mut i = posts.len();
    assert(all.take(i as int) =~= all);
    while i > 0
        invariant
            i <= posts.len(),
            all == posts@.map_values(|e: (Post, String)| (e.0@, e.1@)),
            post_path(all, slug@) == post_path(all.take(i as int), slug@),
        decreases i,
    {
        assert(all.take(i as int).drop_last() =~= all.take(i - 1));
        if posts[i - 1].0.slug == *slug {
            return Some(posts[i - 1].1.clone());
        }
        i -= 1;
    }
    None
}

/// Reads one more content file into `st`.
fn scan_file(st: Scanned, path: &str, bytes: &[u8], outcome: ParseOutcome) -> (r: Result<Scanned, ContentError>)
    ensures
        match r {
            Ok(next) => scan_step(st@, path@, bytes@, outcome@) == Ok::<_, ContentErrorView>(next@),
            Err(e) => scan_step(st@, path@, bytes@, outcome@) == Err::<ScanView, _>(e@),
        },
        r matches Ok(next) ==> (scan_dated(st@) ==> scan_dated(next@)),
{
    let text = match utf8_text(bytes) {
        Ok(text) => text,
        Err(source) => return Err(ContentError::Utf8 { path: path.to_string(), source }),
    };
    let mut st = st;
    let ghost st0 = st@;
    match role_of(path) {
        FileRole::Data => {
            if st.data.is_some() {
                return Err(ContentError::DuplicateData);
            }
            match outcome {
                ParseOutcome::SiteData(Ok(d)) => {
                    st.data = Some(d);
                    assert(st@.pages == st0.pages);
                    assert(st@.posts == st0.posts);
                    Ok(st)
                },
                ParseOutcome::SiteData(Err(source)) => Err(ContentError::Json { path: path.to_string(), source }),
                _ => Err(ContentError::MissingData),
            }
        },
        FileRole::Page => {
            let slug = match document_parts(path, text.as_str()) {
                Ok((slug, _, _)) => slug,
                Err(e) => return Err(e),
            };
            match outcome {
                ParseOutcome::Page(frontmatter, html) => {
                    let page = match page_from_parts(path, slug, frontmatter, html) {
                        Ok(page) => page,
                        Err(e) => return Err(e),
                    };
                    match find_page_path(&st.pages, &page.slug) {
                        Some(first_path) => Err(ContentError::DuplicateSlug {
                            kind: "page",
                            slug: page.slug,
                            first_path,
                            second_path: path.to_string(),
                        }),
                        None => {
                            let ghost pv = page@;
                            st.pages.push((page, path.to_string()));
                            assert(st@.pages =~= st0.pages.push((pv, path@)));
                            assert(st@.posts == st0.posts);
                            Ok(st)
                        },
                    }
                },
                _ => Err(ContentError::MissingData),
            }
        },
        FileRole::Post => {
            let slug = match document_parts(path, text.as_str()) {
                Ok((slug, _, _)) => slug,
                Err(e) => return Err(e),
            };
            match outcome {
                ParseOutcome::Post(frontmatter, html) => {
                    let post = match post_from_parts(path, slug, frontmatter, html) {
                        Ok(post) => post,
                        Err(e) => return Err(e),
                    };
                    match find_post_path(&st.posts, &post.slug) {
                        Some(first_path) => Err(ContentError::DuplicateSlug {
                            kind: "post",
                            slug: post.slug,
                            first_path,
                            second_path: path.to_string(),
                        }),
                        None => {
                            let ghost pv = post@;
                            st.posts.push((post, path.to_string()));
                            assert(st@.posts =~= st0.posts.push((pv, path@)));
                            assert(st@.pages == st0.pages);
                            Ok(st)
                        },
                    }
                },
                _ => Err(ContentError::MissingData),
            }
        },
        FileRole::Other => Err(ContentError::UnexpectedFile { path: path.to_string() }),
    }
}

/// Reads all content files in order.
fn scan_files(files: &Vec<(String, Vec<u8>)>, outcomes: Vec<ParseOutcome>) -> (r: Result<Scanned, ContentError>)
    requires
        outcomes@.len() == files@.len(),
    ensures
        match r {
            Ok(st) => scan(files_view(files@), outcomes_view(outcomes@), files@.len()) == Ok::<_, ContentErrorView>(st@),
            Err(e) => scan(files_view(files@), outcomes_view(outcomes@), files@.len()) == Err::<ScanView, _>(e@),
        },
        r matches Ok(st) ==> scan_dated(st@),
{
    let ghost fv = files_view(files@);
    let ghost ov = outcomes_view(outcomes@);
    let ghost orig = outcomes@;
    let n = files.len();
    let mut rest = outcomes;
    let mut pending: Vec<ParseOutcome> = Vec::new();
    while rest.len() > 0
        invariant
            rest@.len() + pending@.len() == n,
            orig == outcomes@,
            orig.len() == n,
            forall|k: int| 0 <= k < rest@.len() ==> rest@[k] == orig[k],
            forall|k: int| 0 <= k < pending@.len() ==> pending@[k] == orig[n - 1 - k],
        decreases rest@.len(),
    {
        let o = rest.pop().unwrap();
        pending.push(o);
    }
    let mut st = Scanned { data: None, pages: Vec::new(), posts: Vec::new() };
    assert(st@.pages =~= Seq::<(PageView, Seq<char>)>::empty());
    assert(st@.posts =~= Seq::<(PostView, Seq<char>)>::empty());
    let mut i: usize = 0;
    while i < n
        invariant
            i <= n,
            n == files@.len(),
            orig.len() == n,
            orig == outcomes@,
            fv == files_view(files@),
            ov == outcomes_view(orig),
            pending@.len() == n - i,
            forall|k: int| 0 <= k < pending@.len() ==> pending@[k] == orig[n - 1 - k],
            scan(fv, ov, i as nat) == Ok::<_, ContentErrorView>(st@),
            scan_dated(st@),
        decreases n - i,
    {
        let outcome = pending.pop().unwrap();
        assert(outcome == orig[i as int]);
        let path = files[i].0.as_str();
        let bytes = files[i].1.as_slice();
        assert(fv[i as int] == (path@, bytes@));
        assert(ov[i as int] == outcome@);
        let ghost before = st@;
        match scan_file(st, path, bytes, outcome) {
            Ok(next) => {
                st = next;
                assert(scan(fv, ov, (i + 1) as nat) == scan_step(before, fv[i as int].0, fv[i as int].1, ov[i as int]));
            },
            Err(e) => {
                assert(scan(fv, ov, (i + 1) as nat) == scan_step(before, fv[i as int].0, fv[i as int].1, ov[i as int]));
                proof {
                    lemma_scan_error_persists(fv, ov, (i + 1) as nat, n as nat);
                }
                return Err(e);
            },
        }
        i += 1;
    }
    Ok(st)
}

/// Module `i` repeats the import path of an earlier module.
pub open spec fn path_repeats(m: Seq<GoModuleView>, i: nat) -> bool {
    exists|j: int| 0 <= j < i && m[j].import_path == m[i as int].import_path
}

/// Module `i` repeats the name of an earlier module.
pub open spec fn name_repeats(m: Seq<GoModuleView>, i: nat) -> bool {
    exists|j: int| 0 <= j < i && m[j].name == m[i as int].name
}

/// What is wrong with module `i`: its own fields, or a name used before.
pub open spec fn module_error(m: Seq<GoModuleView>, i: nat) -> Option<ContentErrorView> {
    match spec_validate_module(i as usize, m[i as int]) {
        Some(e) => Some(e),
        None => if name_repeats(m, i) {
            Some(ContentErrorView::DuplicateModule { name: m[i as int].name })
        } else {
            None
        },
    }
}

/// The first module at or after `from` that repeats an earlier import path.
pub open spec fn first_path_repeat(m: Seq<GoModuleView>, from: nat) -> Option<nat>
    decreases m.len() - from,
{
    if from >= m.len() {
        None
    } else if path_repeats(m, from) {
        Some(from)
    } else {
        first_path_repeat(m, from + 1)
    }
}

/// The first module at or after `from` that is invalid or repeats a name.
pub open spec fn first_module_error(m: Seq<GoModuleView>, from: nat) -> Option<nat>
    decreases m.len() - from,
{
    if from >= m.len() {
        None
    } else if module_error(m, from) is Some {
        Some(from)
    } else {
        first_module_error(m, from + 1)
    }
}

proof fn lemma_first_path_repeat(m: Seq<GoModuleView>, from: nat, i: nat)
    requires
        from <= i <= m.len(),
        i < m.len() ==> path_repeats(m, i),
        forall|k: nat| from <= k < i ==> !#[trigger] path_repeats(m, k),
    ensures
        first_path_repeat(m, from) == (if i < m.len() { Some(i) } else { None::<nat> }),
    decreases i - from,
{
    if from < i {
        lemma_first_path_repeat(m, from + 1, i);
    }
}

proof fn lemma_first_module_error(m: Seq<GoModuleView>, from: nat, i: nat)
    requires
        from <= i <= m.len(),
        i < m.len() ==> module_error(m, i) is Some,
        forall|k: nat| from <= k < i ==> !(#[trigger] module_error(m, k) is Some),
    ensures
        first_module_error(m, from) == (if i < m.len() { Some(i) } else { None::<nat> }),
    decreases i - from,
{
    if from < i {
        lemma_first_module_error(m, from + 1, i);
    }
}

pub(crate) proof fn lemma_first_module_error_found(m: Seq<GoModuleView>, from: nat)
    ensures
        first_module_error(m, from) matches Some(i) ==> module_error(m, i) is Some,
    decreases m.len() - from,
{
    if from < m.len() && !(module_error(m, from) is Some) {
        lemma_first_module_error_found(m, from + 1);
    }
}

pub(crate) proof fn lemma_no_module_error(m: Seq<GoModuleView>, from: nat)
    requires
        first_module_error(m, from) is None,
    ensures
        forall|k: nat| from <= k < m.len() ==> !(#[trigger] module_error(m, k) is Some),
    decreases m.len() - from,
{
    if from < m.len() {
        lemma_no_module_error(m, from + 1);
    }
}

/// The checks made once every file is read: the pages `root`, `about` and
/// `reading` exist; the site data exists, with words and slogans; no import
/// path repeats; and then, module by module, each is valid and its name new.
pub open spec fn spec_validate_site(st: ScanView) -> Option<ContentErrorView> {
    if page_path(st.pages, "root"@) is None {
        Some(ContentErrorView::MissingRequiredPage { slug: "root"@ })
    } else if page_path(st.pages, "about"@) is None {
        Some(ContentErrorView::MissingRequiredPage { slug: "about"@ })
    } else if page_path(st.pages, "reading"@) is None {
        Some(ContentErrorView::MissingRequiredPage { slug: "reading"@ })
    } else {
        match st.data {
            None => Some(ContentErrorView::MissingData),
            Some(d) => if d.words.len() == 0 {
                Some(ContentErrorView::EmptyBranding { collection: "words"@ })
            } else if d.slogans.len() == 0 {
                Some(ContentErrorView::EmptyBranding { collection: "slogans"@ })
            } else {
                match first_path_repeat(d.modules, 0) {
                    Some(i) => Some(ContentErrorView::DuplicateModulePath { import_path: d.modules[i as int].import_path }),
                    None => match first_module_error(d.modules, 0) {
                        Some(i) => module_error(d.modules, i),
                        None => None,
                    },
                }
            },
        }
    }
}

/// The whole load: every file read, then the site checked.
pub open spec fn spec_load(files: Seq<(Seq<char>, Seq<u8>)>, outcomes: Seq<ParseOutcomeView>) -> Result<
    ScanView,
    ContentErrorView,
> {
    match scan(files, outcomes, files.len()) {
        Err(e) => Err(e),
        Ok(st) => match spec_validate_site(st) {
            Some(e) => Err(e),
            None => Ok(st),
        },
    }
}

/// Fails with `MissingRequiredPage` unless a page with `slug` was read.
fn require_page(pages: &Vec<(Page, String)>, slug: &str) -> (r: Result<(), ContentError>)
    ensures
        match r {
            Ok(()) => page_path(pages@.map_values(|e: (Page, String)| (e.0@, e.1@)), slug@) is Some,
            Err(e) => page_path(pages@.map_values(|e: (Page, String)| (e.0@, e.1@)), slug@) is None
                && e@ == (ContentErrorView::MissingRequiredPage { slug: slug@ }),
        },
{
    let wanted = slug.to_string();
    match find_page_path(pages, &wanted) {
        Some(_) => Ok(()),
        None => Err(ContentError::MissingRequiredPage { slug: wanted }),
    }
}

/// Checks the modules of the site data.
fn validate_modules(modules: &Vec<ModuleData>) -> (r: Result<(), ContentError>)
    ensures
        ({
            let m = modules@.map_values(|m: ModuleData| m@);
            match r {
                Ok(()) => first_path_repeat(m, 0) is None && first_module_error(m, 0) is None,
                Err(e) => match first_path_repeat(m, 0) {
                    Some(i) => e@ == (ContentErrorView::DuplicateModulePath { import_path: m[i as int].import_path }),
                    None => match first_module_error(m, 0) {
                        Some(i) => module_error(m, i) == Some(e@),
                        None => false,
                    },
                },
            }
        }),
{
    let ghost m = modules@.map_values(|m: ModuleData| m@);
    let n = modules.len();
    let mut i: usize = 0;
    while i < n
        invariant
            i <= n,
            n == modules@.len(),
            m == modules@.map_values(|m: ModuleData| m@),
            forall|k: nat| k < i ==> !#[trigger] path_repeats(m, k),
        decreases n - i,
    {
        let mut j: usize = 0;
        while j < i
            invariant
                j <= i < n,
                n == modules@.len(),
                m == modules@.map_values(|m: ModuleData| m@),
                forall|l: int| 0 <= l < j ==> m[l].import_path != m[i as int].import_path,
                forall|k: nat| k < i ==> !#[trigger] path_repeats(m, k),
            decreases i - j,
        {
            if modules[j].import_path == modules[i].import_path {
                proof {
                    assert(m[j as int].import_path == m[i as int].import_path);
                    assert(path_repeats(m, i as nat));
                    lemma_first_path_repeat(m, 0, i as nat);
                }
                return Err(ContentError::DuplicateModulePath { import_path: modules[i].import_path.clone() });
            }
            j += 1;
        }
        assert(!path_repeats(m, i as nat));
        i += 1;
    }
    proof {
        lemma_first_path_repeat(m, 0, n as nat);
    }
    let mut i: usize = 0;
    while i < n
        invariant
            i <= n,
            n == modules@.len(),
            m == modules@.map_values(|m: ModuleData| m@),
            first_path_repeat(m, 0) is None,
            forall|k: nat| k < i ==> !(#[trigger] module_error(m, k) is Some),
        decreases n - i,
    {
        match validate_module(i, &modules[i]) {
            Ok(()) => {},
            Err(e) => {
                proof {
                    lemma_first_module_error(m, 0, i as nat);
                }
                return Err(e);
            },
        }
        let mut j: usize = 0;
        while j < i
            invariant
                j <= i < n,
                n == modules@.len(),
                m == modules@.map_values(|m: ModuleData| m@),
                forall|l: int| 0 <= l < j ==> m[l].name != m[i as int].name,
                first_path_repeat(m, 0) is None,
                forall|k: nat| k < i ==> !(#[trigger] module_error(m, k) is Some),
                spec_validate_module(i, m[i as int]) is None,
            decreases i - j,
        {
            if modules[j].name == modules[i].name {
                proof {
                    assert(m[j as int].name == m[i as int].name);
                    assert(name_repeats(m, i as nat));
                    lemma_first_module_error(m, 0, i as nat);
                }
                return Err(ContentError::DuplicateModule { name: modules[i].name.clone() });
            }
            j += 1;
        }
        assert(!name_repeats(m, i as nat));
        i += 1;
    }
    proof {
        lemma_first_module_error(m, 0, n as nat);
    }
    Ok(())
}

/// The checks made once every file is read.
fn validate_site(st: &Scanned) -> (r: Result<(), ContentError>)
    ensures
        match r {
            Ok(()) => spec_validate_site(st@) is None,
            Err(e) => spec_validate_site(st@) == Some(e@),
        },
{
    if let Err(e) = require_page(&st.pages, "root") {
        return Err(e);
    }
    if let Err(e) = require_page(&st.pages, "about") {
        return Err(e);
    }
    if let Err(e) = require_page(&st.pages, "reading") {
        return Err(e);
    }
    let d = match &st.data {
        Some(d) => d,
        None => return Err(ContentError::MissingData),
    };
    if d.words.len() == 0 {
        return Err(ContentError::EmptyBranding { collection: "words" });
    }
    if d.slogans.len() == 0 {
        return Err(ContentError::EmptyBranding { collection: "slogans" });
    }
    validate_modules(&d.modules)
}

pub(crate) proof fn lemma_page_path_none(pages: Seq<(PageView, Seq<char>)>, slug: Seq<char>)
    requires
        page_path(pages, slug) is None,
    ensures
        forall|i: int| 0 <= i < pages.len() ==> (#[trigger] pages[i]).0.slug != slug,
    decreases pages.len(),
{
    if pages.len() > 0 {
        lemma_page_path_none(pages.drop_last(), slug);
        assert forall|i: int| 0 <= i < pages.len() implies (#[trigger] pages[i]).0.slug != slug by {
            if i < pages.len() - 1 {
                assert(pages[i] == pages.drop_last()[i]);
            }
        }
    }
}

pub(crate) proof fn lemma_post_path_none(posts: Seq<(PostView, Seq<char>)>, slug: Seq<char>)
    requires
        post_path(posts, slug) is None,
    ensures
        forall|i: int| 0 <= i < posts.len() ==> (#[trigger] posts[i]).0.slug != slug,
    decreases posts.len(),
{
    if posts.len() > 0 {
        lemma_post_path_none(posts.drop_last(), slug);
        assert forall|i: int| 0 <= i < posts.len() implies (#[trigger] posts[i]).0.slug != slug by {
            if i < posts.len() - 1 {
                assert(posts[i] == posts.drop_last()[i]);
            }
        }
    }
}

/// The pages of a scan state, without their paths.
pub open spec fn scanned_pages(st: ScanView) -> Seq<PageView> {
    st.pages.map_values(|e: (PageView, Seq<char>)| e.0)
}

/// The posts of a scan state, without their paths.
pub open spec fn scanned_posts(st: ScanView) -> Seq<PostView> {
    st.posts.map_values(|e: (PostView, Seq<char>)| e.0)
}

/// Every page and post read so far has its dates on the calendar.
pub open spec fn scan_dated(st: ScanView) -> bool {
    &&& forall|i: int| 0 <= i < st.pages.len() ==> (#[trigger] st.pages[i]).0.dates_on_calendar()
    &&& forall|i: int| 0 <= i < st.posts.len() ==> (#[trigger] st.posts[i]).0.dates_on_calendar()
}

/// What a repository serves of a load has the load's dates, so they are on
/// the calendar too.
proof fn lemma_served_dated(v: RepositoryView, st: ScanView, include_drafts: bool)
    requires
        serves_load(v, st, include_drafts),
        scan_dated(st),
    ensures
        forall|i: int| 0 <= i < v.pages.len() ==> (#[trigger] v.pages[i]).dates_on_calendar(),
        forall|i: int| 0 <= i < v.posts.len() ==> (#[trigger] v.posts[i]).dates_on_calendar(),
{
    broadcast use vstd::seq_lib::group_to_multiset_ensures;

    assert forall|i: int| 0 <= i < v.pages.len() implies (#[trigger] v.pages[i]).dates_on_calendar() by {
        assert(v.pages.contains(v.pages[i]));
        assert(scanned_pages(st).to_multiset().count(v.pages[i]) > 0);
        assert(scanned_pages(st).contains(v.pages[i]));
        let j = choose|j: int| 0 <= j < scanned_pages(st).len() && scanned_pages(st)[j] == v.pages[i];
        assert(st.pages[j].0 == v.pages[i]);
    }
    assert forall|i: int| 0 <= i < v.posts.len() implies (#[trigger] v.posts[i]).dates_on_calendar() by {
        let keep = |p: PostView| include_drafts || !p.draft;
        assert(v.posts.contains(v.posts[i]));
        assert(visible_posts(st, include_drafts).to_multiset().count(v.posts[i]) > 0);
        assert(scanned_posts(st).filter(keep).contains(v.posts[i]));
        scanned_posts(st).lemma_filter_contains_rev(keep, v.posts[i]);
        let j = choose|j: int| 0 <= j < scanned_posts(st).len() && scanned_posts(st)[j] == v.posts[i];
        assert(st.posts[j].0 == v.posts[i]);
    }
}


/// Reading never keeps two pages, or two posts, with one slug.
proof fn lemma_scan_distinct(files: Seq<(Seq<char>, Seq<u8>)>, outcomes: Seq<ParseOutcomeView>, n: nat)
    requires
        n <= files.len(),
        n <= outcomes.len(),
        scan(files, outcomes, n) is Ok,
    ensures
        distinct_page_slugs(scanned_pages(scan(files, outcomes, n)->Ok_0)),
        distinct_post_slugs(scanned_posts(scan(files, outcomes, n)->Ok_0)),
    decreases n,
{
    if n > 0 {
        let prev = (n - 1) as nat;
        lemma_scan_distinct(files, outcomes, prev);
        let st = scan(files, outcomes, prev)->Ok_0;
        let next = scan(files, outcomes, n)->Ok_0;
        if next.pages.len() > st.pages.len() {
            let e = next.pages.last();
            lemma_page_path_none(st.pages, e.0.slug);
            assert(next.pages == st.pages.push(e));
            assert forall|i: int, j: int| 0 <= i < j < scanned_pages(next).len() implies (#[trigger] scanned_pages(
                next,
            )[i]).slug != (#[trigger] scanned_pages(next)[j]).slug by {
                if j < st.pages.len() {
                    assert(scanned_pages(next)[i] == scanned_pages(st)[i]);
                    assert(scanned_pages(next)[j] == scanned_pages(st)[j]);
                } else {
                    assert(scanned_pages(next)[i] == st.pages[i].0);
                }
            }
        } else {
            assert(scanned_pages(next) =~= scanned_pages(st));
        }
        if next.posts.len() > st.posts.len() {
            let e = next.posts.last();
            lemma_post_path_none(st.posts, e.0.slug);
            assert(next.posts == st.posts.push(e));
            assert forall|i: int, j: int| 0 <= i < j < scanned_posts(next).len() implies (#[trigger] scanned_posts(
                next,
            )[i]).slug != (#[trigger] scanned_posts(next)[j]).slug by {
                if j < st.posts.len() {
                    assert(scanned_posts(next)[i] == scanned_posts(st)[i]);
                    assert(scanned_posts(next)[j] == scanned_posts(st)[j]);
                } else {
                    assert(scanned_posts(next)[i] == st.posts[i].0);
                }
            }
        } else {
            assert(scanned_posts(next) =~= scanned_posts(st));
        }
    }
}

/// The posts a load serves: every post read, less drafts unless drafts
/// are included.
pub open spec fn visible_posts(st: ScanView, include_drafts: bool) -> Seq<PostView> {
    scanned_posts(st).filter(|p: PostView| include_drafts || !p.draft)
}

/// What a repository serves.
pub struct RepositoryView {
    pub pages: Seq<PageView>,
    pub posts: Seq<PostView>,
    pub modules: Seq<GoModuleView>,
    pub words: Seq<Seq<char>>,
    pub slogans: Seq<Seq<char>>,
}

/// A repository state is consistent: pages are by slug (so no slug
/// repeats), posts have distinct slugs and are newest first (slug as
/// tie-break), modules are by name (so no name repeats), there is at
/// least one word and one slogan, and every date of a page or post is a
/// calendar day (so it shows).
pub open spec fn is_consistent(v: RepositoryView) -> bool {
    &&& distinct_page_slugs(v.pages)
    &&& pages_in_order(v.pages)
    &&& distinct_post_slugs(v.posts)
    &&& posts_in_order(v.posts)
    &&& modules_in_order(v.modules)
    &&& v.words.len() > 0
    &&& v.slogans.len() > 0
    &&& forall|i: int| 0 <= i < v.pages.len() ==> (#[trigger] v.pages[i]).dates_on_calendar()
    &&& forall|i: int| 0 <= i < v.posts.len() ==> (#[trigger] v.posts[i]).dates_on_calendar()
}

/// The repository serves what the load read: its pages by slug, its visible
/// posts in order, its site data's modules by name, words and slogans.
pub open spec fn serves_load(v: RepositoryView, st: ScanView, include_drafts: bool) -> bool {
    &&& st.data is Some
    &&& v.pages.to_multiset() == scanned_pages(st).to_multiset()
    &&& pages_in_order(v.pages)
    &&& v.posts.to_multiset() == visible_posts(st, include_drafts).to_multiset()
    &&& posts_in_order(v.posts)
    &&& v.modules.to_multiset() == st.data->0.modules.to_multiset()
    &&& modules_in_order(v.modules)
    &&& v.words == st.data->0.words
    &&& v.slogans == st.data->0.slogans
}

/// The site's content, validated and indexed for the pages to query.
#[derive(Debug)]
pub struct EmbeddedContentRepository {
    pages: Vec<Page>,
    posts: Vec<Post>,
    modules: Vec<GoModule>,
    words: Vec<String>,
    slogans: Vec<String>,
}

impl View for EmbeddedContentRepository {
    type V = RepositoryView;

    closed spec fn view(&self) -> RepositoryView {
        RepositoryView {
            pages: self.pages@.map_values(|p: Page| p@),
            posts: post_views(self.posts@),
            modules: module_views(self.modules@),
            words: strings_view(self.words@),
            slogans: strings_view(self.slogans@),
        }
    }
}

/// The pages read, without their paths.
fn copy_pages(pages: &Vec<(Page, String)>) -> (out: Vec<Page>)
    ensures
        out@.map_values(|p: Page| p@) == pages@.map_values(|e: (Page, String)| (e.0@, e.1@)).map_values(
            |e: (PageView, Seq<char>)| e.0,
        ),
{
    let mut out: Vec<Page> = Vec::new();
    let mut i: usize = 0;
    while i < pages.len()
        invariant
            i <= pages.len(),
            out@.map_values(|p: Page| p@) == pages@.take(i as int).map_values(|e: (Page, String)| (e.0@, e.1@)).map_values(
                |e: (PageView, Seq<char>)| e.0,
            ),
        decreases pages.len() - i,
    {
        out.push(pages[i].0.duplicate());
        assert(pages@.take(i + 1).map_values(|e: (Page, String)| (e.0@, e.1@)).map_values(
            |e: (PageView, Seq<char>)| e.0,
        ) =~= pages@.take(i as int).map_values(|e: (Page, String)| (e.0@, e.1@)).map_values(
            |e: (PageView, Seq<char>)| e.0,
        ).push(pages@[i as int].0@));
        assert(out@.map_values(|p: Page| p@) =~= pages@.take(i + 1).map_values(|e: (Page, String)| (e.0@, e.1@)).map_values(
            |e: (PageView, Seq<char>)| e.0,
        ));
        i += 1;
    }
    assert(pages@.take(pages.len() as int) =~= pages@);
    out
}

/// The posts read, without their paths, less drafts unless drafts are included.
fn visible(posts: &Vec<(Post, String)>, include_drafts: bool) -> (out: Vec<Post>)
    requires
        distinct_post_slugs(posts@.map_values(|e: (Post, String)| (e.0@, e.1@)).map_values(
            |e: (PostView, Seq<char>)| e.0,
        )),
    ensures
        post_views(out@) == posts@.map_values(|e: (Post, String)| (e.0@, e.1@)).map_values(
            |e: (PostView, Seq<char>)| e.0,
        ).filter(|p: PostView| include_drafts || !p.draft),
        distinct_post_slugs(post_views(out@)),
{
    let ghost all = posts@.map_values(|e: (Post, String)| (e.0@, e.1@)).map_values(|e: (PostView, Seq<char>)| e.0);
    let ghost keep = |p: PostView| include_drafts || !p.draft;
    let mut out: Vec<Post> = Vec::new();
    let mut i: usize = 0;
    while i < posts.len()
        invariant
            i <= posts.len(),
            all == posts@.map_values(|e: (Post, String)| (e.0@, e.1@)).map_values(|e: (PostView, Seq<char>)| e.0),
            keep == (|p: PostView| include_drafts || !p.draft),
            distinct_post_slugs(all),
            post_views(out@) == all.take(i as int).filter(keep),
            distinct_post_slugs(post_views(out@)),
            forall|k: int| 0 <= k < out@.len() ==> exists|j: int| 0 <= j < i && (#[trigger] out@[k])@.slug == all[j].slug,
        decreases posts.len() - i,
    {
        assert(all.take(i + 1) =~= all.take(i as int).push(all[i as int]));
        proof {
            all.take(i as int).lemma_filter_push(all[i as int], keep);
        }
        if include_drafts || !posts[i].0.draft {
            let ghost out0 = out@;
            out.push(posts[i].0.duplicate());
            assert(post_views(out@) =~= post_views(out0).push(all[i as int]));
            assert forall|a: int, b: int| 0 <= a < b < post_views(out@).len() implies (#[trigger] post_views(out@)[a]).slug
                != (#[trigger] post_views(out@)[b]).slug by {
                if b == out0.len() {
                    assert(post_views(out@)[a] == out0[a]@);
                    let j = choose|j: int| 0 <= j < i && out0[a]@.slug == all[j].slug;
                } else {
                    assert(post_views(out@)[a] == post_views(out0)[a]);
                    assert(post_views(out@)[b] == post_views(out0)[b]);
                }
            }
            assert forall|k: int| 0 <= k < out@.len() implies exists|j: int| 0 <= j < i + 1 && (#[trigger] out@[k])@.slug
                == all[j].slug by {
                if k < out0.len() {
                    assert(out@[k] == out0[k]);
                } else {
                    assert(out@[k]@ == all[i as int]);
                }
            }
        }
        i += 1;
    }
    assert(all.take(posts.len() as int) =~= all);
    out
}

/// The site data's modules as served module records.
fn modules_of(data: &Vec<ModuleData>) -> (out: Vec<GoModule>)
    ensures
        module_views(out@) == data@.map_values(|m: ModuleData| m@),
{
    let mut out: Vec<GoModule> = Vec::new();
    let mut i: usize = 0;
    while i < data.len()
        invariant
            i <= data.len(),
            module_views(out@) == data@.take(i as int).map_values(|m: ModuleData| m@),
        decreases data.len() - i,
    {
        let m = &data[i];
        let ghost out0 = out@;
        out.push(GoModule {
            repository_url: m.repository_url.clone(),
            import_path: m.import_path.clone(),
            name: m.name.clone(),
            description: m.description.clone(),
            license: m.license.clone(),
        });
        assert(data@.take(i + 1) =~= data@.take(i as int).push(data@[i as int]));
        assert(module_views(out@) =~= module_views(out0).push(out@[i as int]@));
        assert(out@[i as int]@ == data@[i as int]@);
        assert(module_views(out@) =~= data@.take(i + 1).map_values(|m: ModuleData| m@));
        i += 1;
    }
    assert(data@.take(data.len() as int) =~= data@);
    out
}

impl EmbeddedContentRepository {
    #[verifier::type_invariant]
    closed spec fn consistent(self) -> bool {
        is_consistent(self@)
    }

    /// Loads the content files, given what the parsers made of each file's
    /// parse request. The result is the load's first error, in file order
    /// and then in the order of the final checks; or else a repository
    /// serving what the files hold, posts newest first and modules by name.
    pub fn from_files(include_drafts: bool, files: Vec<(String, Vec<u8>)>, outcomes: Vec<ParseOutcome>) -> (r: Result<
        EmbeddedContentRepository,
        ContentError,
    >)
        requires
            outcomes_answer(files_view(files@), outcomes_view(outcomes@)),
        ensures
            match r {
                Err(e) => spec_load(files_view(files@), outcomes_view(outcomes@)) == Err::<ScanView, _>(e@),
                Ok(repo) => is_consistent(repo@) && spec_load(files_view(files@), outcomes_view(outcomes@)) is Ok && serves_load(
                    repo@,
                    spec_load(files_view(files@), outcomes_view(outcomes@))->Ok_0,
                    include_drafts,
                ),
            },
    {
        let ghost fv = files_view(files@);
        let ghost ov = outcomes_view(outcomes@);
        assert(outcomes@.len() == files@.len()) by {
            assert(fv.len() == files@.len());
            assert(ov.len() == outcomes@.len());
        }
        let st = match scan_files(&files, outcomes) {
            Ok(st) => st,
            Err(e) => return Err(e),
        };
        if let Err(e) = validate_site(&st) {
            return Err(e);
        }
        proof {
            lemma_scan_distinct(fv, ov, fv.len());
        }
        let d = match &st.data {
            Some(d) => d,
            None => return Err(ContentError::MissingData),
        };
        let ghost dv = d@;
        let ghost m = d.modules@.map_values(|m: ModuleData| m@);
        assert(st@.data == Some(dv));
        assert(dv.modules == m);
        assert(spec_validate_site(st@) is None);
        assert(page_path(st@.pages, "root"@) is Some);
        assert(page_path(st@.pages, "about"@) is Some);
        assert(page_path(st@.pages, "reading"@) is Some);
        assert(dv.words.len() > 0);
        assert(dv.slogans.len() > 0);
        assert(first_path_repeat(dv.modules, 0) is None);
        proof {
            lemma_first_module_error_found(m, 0);
        }
        assert(first_module_error(m, 0) is None);
        proof {
            lemma_no_module_error(m, 0);
            assert forall|i: int, j: int| 0 <= i < j < m.len() implies (#[trigger] m[i]).name != (#[trigger] m[j]).name by {
                assert(!(module_error(m, j as nat) is Some));
                if m[i].name == m[j].name {
                    assert(name_repeats(m, j as nat));
                }
            }
        }
        let read_pages = copy_pages(&st.pages);
        let pages = sort_pages(read_pages);
        proof {
            assert forall|i: int, j: int| 0 <= i < j < page_views(pages@).len() implies (#[trigger] page_views(
                pages@,
            )[i]).slug != (#[trigger] page_views(pages@)[j]).slug by {
                crate::text::lemma_seq_lt_irreflexive(page_views(pages@)[i].slug);
            }
        }
        let shown = visible(&st.posts, include_drafts);
        let ghost shown_view = post_views(shown@);
        let posts = sort_posts(shown);
        proof {
            lemma_distinct_post_slugs_rearranged(shown_view, post_views(posts@));
        }
        let modules = sort_modules(modules_of(&d.modules));
        let words = copy_strings(&d.words);
        let slogans = copy_strings(&d.slogans);
        assert(dv.modules == m);
        let ghost served = RepositoryView {
            pages: pages@.map_values(|p: Page| p@),
            posts: post_views(posts@),
            modules: module_views(modules@),
            words: strings_view(words@),
            slogans: strings_view(slogans@),
        };
        proof {
            assert(serves_load(served, st@, include_drafts));
            lemma_served_dated(served, st@, include_drafts);
        }
        let repo = EmbeddedContentRepository { pages, posts, modules, words, slogans };
        Ok(repo)
    }
}

/// Whether an outcome is of the kind a request asks for.
fn outcome_answers(request: &ParseRequest, outcome: &ParseOutcome) -> (b: bool)
    ensures
        b == answers(request@, outcome@),
{
    match (request, outcome) {
        (ParseRequest::Nothing, ParseOutcome::Nothing) => true,
        (ParseRequest::SiteData { .. }, ParseOutcome::SiteData(_)) => true,
        (ParseRequest::Page { .. }, ParseOutcome::Page(_, _)) => true,
        (ParseRequest::Post { .. }, ParseOutcome::Post(_, _)) => true,
        _ => false,
    }
}

/// Whether the outcomes answer the files' parse requests, one by one.
pub fn outcomes_match(files: &Vec<(String, Vec<u8>)>, outcomes: &Vec<ParseOutcome>) -> (b: bool)
    ensures
        b == outcomes_answer(files_view(files@), outcomes_view(outcomes@)),
{
    let ghost fv = files_view(files@);
    let ghost ov = outcomes_view(outcomes@);
    if files.len() != outcomes.len() {
        assert(fv.len() != ov.len());
        return false;
    }
    let mut i: usize = 0;
    while i < files.len()
        invariant
            i <= files@.len(),
            files@.len() == outcomes@.len(),
            fv == files_view(files@),
            ov == outcomes_view(outcomes@),
            forall|k: int| 0 <= k < i ==> answers(spec_request(fv[k].0, fv[k].1), #[trigger] ov[k]),
        decreases files@.len() - i,
    {
        let request = parse_request(files[i].0.as_str(), files[i].1.as_slice());
        assert(fv[i as int] == (files@[i as int].0@, files@[i as int].1@));
        assert(ov[i as int] == outcomes@[i as int]@);
        if !outcome_answers(&request, &outcomes[i]) {
            return false;
        }
        i += 1;
    }
    true
}

impl EmbeddedContentRepository {
    /// Loads the content files as `from_files` does, after checking that the
    /// outcomes answer the files' parse requests; `None` when they do not.
    pub fn from_checked_files(include_drafts: bool, files: Vec<(String, Vec<u8>)>, outcomes: Vec<ParseOutcome>) -> (r:
        Option<Result<EmbeddedContentRepository, ContentError>>)
        ensures
            r is None <==> !outcomes_answer(files_view(files@), outcomes_view(outcomes@)),
            match r {
                None => true,
                Some(Err(e)) => spec_load(files_view(files@), outcomes_view(outcomes@)) == Err::<ScanView, _>(e@),
                Some(Ok(repo)) => is_consistent(repo@) && spec_load(files_view(files@), outcomes_view(outcomes@)) is Ok
                    && serves_load(repo@, spec_load(files_view(files@), outcomes_view(outcomes@))->Ok_0, include_drafts),
            },
    {
        if !outcomes_match(&files, &outcomes) {
            return None;
        }
        Some(EmbeddedContentRepository::from_files(include_drafts, files, outcomes))
    }
}

/// The posts of one year, in the order given.
pub open spec fn posts_of_year(posts: Seq<PostView>, year: i32) -> Seq<PostView> {
    posts.filter(|p: PostView| p.publish_date.year == year)
}

/// Whether a post carries a tag.
pub open spec fn has_tag(p: PostView, tag: Seq<char>) -> bool {
    p.tags.contains(tag)
}

/// The posts carrying a tag, in the order given.
pub open spec fn posts_tagged(posts: Seq<PostView>, tag: Seq<char>) -> Seq<PostView> {
    posts.filter(|p: PostView| has_tag(p, tag))
}

/// Some post carries the tag.
pub open spec fn tag_used(posts: Seq<PostView>, tag: Seq<char>) -> bool {
    exists|i: int| 0 <= i < posts.len() && has_tag(#[trigger] posts[i], tag)
}

/// The view of year groups.
pub open spec fn year_groups_view(groups: Seq<(i32, Vec<Post>)>) -> Seq<(i32, Seq<PostView>)> {
    groups.map_values(|g: (i32, Vec<Post>)| (g.0, post_views(g.1@)))
}

/// The posts of the groups, read one group after another.
pub open spec fn flatten_groups(groups: Seq<(i32, Seq<PostView>)>) -> Seq<PostView>
    decreases groups.len(),
{
    if groups.len() == 0 {
        Seq::empty()
    } else {
        flatten_groups(groups.drop_last()) + groups.last().1
    }
}

/// The groups' years are strictly decreasing.
pub open spec fn years_descending(groups: Seq<(i32, Seq<PostView>)>) -> bool {
    forall|a: int, b: int| 0 <= a < b < groups.len() ==> (#[trigger] groups[a]).0 > (#[trigger] groups[b]).0
}

/// Each group holds at least one post, and only posts of its year.
pub open spec fn groups_of_one_year(groups: Seq<(i32, Seq<PostView>)>) -> bool {
    forall|a: int| #![trigger groups[a]] 0 <= a < groups.len() ==> groups[a].1.len() > 0 && forall|k: int|
        0 <= k < groups[a].1.len() ==> (#[trigger] groups[a].1[k]).publish_date.year == groups[a].0
}

/// Whether `post` carries `tag`.
fn post_has_tag(post: &Post, tag: &str) -> (b: bool)
    ensures
        b == has_tag(post@, tag@),
{
    let mut i: usize = 0;
    while i < post.tags.len()
        invariant
            i <= post.tags@.len(),
            forall|k: int| 0 <= k < i ==> post.tags@[k]@ != tag@,
        decreases post.tags@.len() - i,
    {
        if crate::text::str_equal(post.tags[i].as_str(), tag) {
            assert(post@.tags[i as int] == tag@);
            return true;
        }
        i += 1;
    }
    assert forall|k: int| 0 <= k < post@.tags.len() implies post@.tags[k] != tag@ by {
        assert(post@.tags[k] == post.tags@[k]@);
    }
    false
}

/// Copies of the posts carrying a tag.
fn posts_where_tag(posts: &Vec<Post>, tag: &str) -> (out: Vec<Post>)
    ensures
        post_views(out@) == posts_tagged(post_views(posts@), tag@),
{
    let ghost all = post_views(posts@);
    let ghost keep = |p: PostView| has_tag(p, tag@);
    let mut out: Vec<Post> = Vec::new();
    let mut i: usize = 0;
    while i < posts.len()
        invariant
            i <= posts.len(),
            all == post_views(posts@),
            keep == (|p: PostView| has_tag(p, tag@)),
            post_views(out@) == all.take(i as int).filter(keep),
        decreases posts.len() - i,
    {
        assert(all.take(i + 1) =~= all.take(i as int).push(all[i as int]));
        proof {
            all.take(i as int).lemma_filter_push(all[i as int], keep);
        }
        if post_has_tag(&posts[i], tag) {
            let ghost out0 = out@;
            out.push(posts[i].duplicate());
            assert(post_views(out@) =~= post_views(out0).push(all[i as int]));
        }
        i += 1;
    }
    assert(all.take(posts.len() as int) =~= all);
    out
}

/// A copy of the posts.
fn copy_posts(posts: &Vec<Post>) -> (out: Vec<Post>)
    ensures
        post_views(out@) == post_views(posts@),
{
    let mut out: Vec<Post> = Vec::new();
    let mut i: usize = 0;
    while i < posts.len()
        invariant
            i <= posts.len(),
            post_views(out@) == post_views(posts@).take(i as int),
        decreases posts.len() - i,
    {
        let ghost out0 = out@;
        out.push(posts[i].duplicate());
        assert(post_views(out@) =~= post_views(out0).push(posts@[i as int]@));
        assert(post_views(posts@).take(i + 1) =~= post_views(posts@).take(i as int).push(posts@[i as int]@));
        i += 1;
    }
    assert(post_views(posts@).take(posts.len() as int) =~= post_views(posts@));
    out
}

/// A copy of the modules.
fn copy_modules(modules: &Vec<GoModule>) -> (out: Vec<GoModule>)
    ensures
        module_views(out@) == module_views(modules@),
{
    let mut out: Vec<GoModule> = Vec::new();
    let mut i: usize = 0;
    while i < modules.len()
        invariant
            i <= modules.len(),
            module_views(out@) == module_views(modules@).take(i as int),
        decreases modules.len() - i,
    {
        let ghost out0 = out@;
        out.push(modules[i].duplicate());
        assert(module_views(out@) =~= module_views(out0).push(modules@[i as int]@));
        assert(module_views(modules@).take(i + 1) =~= module_views(modules@).take(i as int).push(modules@[i as int]@));
        i += 1;
    }
    assert(module_views(modules@).take(modules.len() as int) =~= module_views(modules@));
    out
}

impl EmbeddedContentRepository {
    /// The page with slug `slug`, if there is one.
    pub fn page(&self, slug: &str) -> (r: Option<Page>)
        ensures
            is_consistent(self@),
            match r {
                Some(p) => p@.slug == slug@ && self@.pages.contains(p@),
                None => forall|i: int| 0 <= i < self@.pages.len() ==> (#[trigger] self@.pages[i]).slug != slug@,
            },
    {
        proof {
            use_type_invariant(self);
        }
        let mut i: usize = 0;
        while i < self.pages.len()
            invariant
                i <= self.pages@.len(),
                forall|k: int| 0 <= k < i ==> (#[trigger] self@.pages[k]).slug != slug@,
            decreases self.pages@.len() - i,
        {
            if crate::text::str_equal(self.pages[i].slug.as_str(), slug) {
                proof {
                    use_type_invariant(self);
                }
                let p = self.pages[i].duplicate();
                assert(self@.pages[i as int] == p@);
                return Some(p);
            }
            assert(self@.pages[i as int] == self.pages@[i as int]@);
            i += 1;
        }
        None
    }

    /// The post with slug `slug`, if it is served.
    pub fn post(&self, slug: &str) -> (r: Option<Post>)
        ensures
            is_consistent(self@),
            match r {
                Some(p) => p@.slug == slug@ && self@.posts.contains(p@),
                None => forall|i: int| 0 <= i < self@.posts.len() ==> (#[trigger] self@.posts[i]).slug != slug@,
            },
    {
        proof {
            use_type_invariant(self);
        }
        let mut i: usize = 0;
        while i < self.posts.len()
            invariant
                i <= self.posts@.len(),
                forall|k: int| 0 <= k < i ==> (#[trigger] self@.posts[k]).slug != slug@,
            decreases self.posts@.len() - i,
        {
            if crate::text::str_equal(self.posts[i].slug.as_str(), slug) {
                proof {
                    use_type_invariant(self);
                }
                let p = self.posts[i].duplicate();
                assert(self@.posts[i as int] == p@);
                return Some(p);
            }
            assert(self@.posts[i as int] == self.posts@[i as int]@);
            i += 1;
        }
        None
    }

    /// Every served post, newest first.
    pub fn posts(&self) -> (r: Vec<Post>)
        ensures
            is_consistent(self@),
            post_views(r@) == self@.posts,
    {
        proof {
            use_type_invariant(self);
        }
        copy_posts(&self.posts)
    }

    /// The served posts grouped by publication year: years newest first,
    /// each with its posts in the order `posts` gives, so that the groups
    /// read one after another are the served posts.
    pub fn posts_by_year(&self) -> (r: Vec<(i32, Vec<Post>)>)
        ensures
            is_consistent(self@),
            flatten_groups(year_groups_view(r@)) == self@.posts,
            years_descending(year_groups_view(r@)),
            groups_of_one_year(year_groups_view(r@)),
            forall|i: int| 0 <= i < r@.len() ==> post_views((#[trigger] r@[i]).1@) == posts_of_year(self@.posts, r@[i].0),
            forall|k: int| 0 <= k < self@.posts.len() ==> exists|i: int| 0 <= i < r@.len() && (#[trigger] r@[i]).0
                == (#[trigger] self@.posts[k]).publish_date.year,
    {
        proof {
            use_type_invariant(self);
        }
        let ghost posts = self@.posts;
        let groups = group_by_year(&self.posts);
        proof {
            let g = year_groups_view(groups@);
            law_year_groups_are_year_filters(g, posts);
            assert forall|a: int| 0 <= a < groups@.len() implies post_views((#[trigger] groups@[a]).1@) == posts_of_year(
                posts,
                groups@[a].0,
            ) by {
                assert(g[a] == (groups@[a].0, post_views(groups@[a].1@)));
            }
            assert forall|k: int| 0 <= k < posts.len() implies exists|a: int| 0 <= a < groups@.len() && (#[trigger] groups@[a]).0
                == (#[trigger] posts[k]).publish_date.year by {
                let a = choose|a: int| 0 <= a < g.len() && g[a].0 == posts[k].publish_date.year;
                assert(g[a].0 == groups@[a].0);
            }
        }
        groups
    }
}

/// Adds a group to the groups' view.
proof fn lemma_push_group(groups: Seq<(i32, Vec<Post>)>, year: i32, members: Vec<Post>)
    ensures
        year_groups_view(groups.push((year, members))) == year_groups_view(groups).push((year, post_views(members@))),
        flatten_groups(year_groups_view(groups.push((year, members)))) == flatten_groups(year_groups_view(groups))
            + post_views(members@),
{
    let after = year_groups_view(groups.push((year, members)));
    assert(after =~= year_groups_view(groups).push((year, post_views(members@))));
    assert(after.drop_last() =~= year_groups_view(groups));
}

/// Splits posts in the post order into runs of one year each.
fn group_by_year(posts: &Vec<Post>) -> (groups: Vec<(i32, Vec<Post>)>)
    requires
        posts_in_order(post_views(posts@)),
    ensures
        flatten_groups(year_groups_view(groups@)) == post_views(posts@),
        years_descending(year_groups_view(groups@)),
        groups_of_one_year(year_groups_view(groups@)),
{
    let ghost all = post_views(posts@);
    let mut groups: Vec<(i32, Vec<Post>)> = Vec::new();
    let mut current: Vec<Post> = Vec::new();
    let mut current_year: i32 = 0;
    let mut i: usize = 0;
    while i < posts.len()
        invariant
            i <= posts@.len(),
            all == post_views(posts@),
            posts_in_order(all),
            flatten_groups(year_groups_view(groups@)) + post_views(current@) == all.take(i as int),
            years_descending(year_groups_view(groups@)),
            groups_of_one_year(year_groups_view(groups@)),
            i == 0 ==> groups@.len() == 0 && current@.len() == 0,
            i > 0 ==> current@.len() > 0 && current_year == all[i - 1].publish_date.year,
            forall|k: int| 0 <= k < current@.len() ==> (#[trigger] current@[k]).publish_date.year == current_year,
            i > 0 && groups@.len() > 0 ==> year_groups_view(groups@).last().0 > current_year,
        decreases posts@.len() - i,
    {
        let post = posts[i].duplicate();
        let year = post.publish_date.year;
        assert(all.take(i + 1) =~= all.take(i as int).push(all[i as int]));
        if i > 0 && year == current_year {
            let ghost cur0 = post_views(current@);
            current.push(post);
            assert(post_views(current@) =~= cur0.push(all[i as int]));
        } else if i == 0 {
            current.push(post);
            current_year = year;
            assert(post_views(current@) =~= seq![all[0]]);
            assert(flatten_groups(year_groups_view(groups@)) =~= Seq::<PostView>::empty());
        } else {
            assert(post_before(all[i - 1], all[i as int]));
            let ghost before = year_groups_view(groups@);
            let ghost done = post_views(current@);
            proof {
                lemma_push_group(groups@, current_year, current);
            }
            groups.push((current_year, current));
            let ghost now = year_groups_view(groups@);
            assert(now == before.push((current_year, done)));
            assert(groups_of_one_year(now)) by {
                assert forall|a: int| #![trigger now[a]] 0 <= a < now.len() implies now[a].1.len() > 0 && forall|k: int|
                    0 <= k < now[a].1.len() ==> (#[trigger] now[a].1[k]).publish_date.year == now[a].0 by {
                    if a < before.len() {
                        assert(now[a] == before[a]);
                    } else {
                        assert(now[a] == (current_year, done));
                    }
                }
            }
            current = Vec::new();
            current.push(post);
            current_year = year;
            assert(post_views(current@) =~= seq![all[i as int]]);
        }
        i += 1;
    }
    if i > 0 {
        let ghost before = year_groups_view(groups@);
        let ghost done = post_views(current@);
        proof {
            lemma_push_group(groups@, current_year, current);
        }
        groups.push((current_year, current));
        let ghost now = year_groups_view(groups@);
        assert(groups_of_one_year(now)) by {
            assert forall|a: int| #![trigger now[a]] 0 <= a < now.len() implies now[a].1.len() > 0 && forall|k: int|
                0 <= k < now[a].1.len() ==> (#[trigger] now[a].1[k]).publish_date.year == now[a].0 by {
                if a < before.len() {
                    assert(now[a] == before[a]);
                } else {
                    assert(now[a] == (current_year, done));
                }
            }
        }
    } else {
        assert(flatten_groups(year_groups_view(groups@)) =~= Seq::<PostView>::empty());
    }
    assert(all.take(all.len() as int) =~= all);
    groups
}

/// Names listed in strictly increasing order.
pub open spec fn names_in_order(s: Seq<Seq<char>>) -> bool {
    forall|i: int, j: int| 0 <= i < j < s.len() ==> seq_lt(#[trigger] s[i], #[trigger] s[j])
}

/// The tags of the posts in the summary order: each used tag once, by
/// name, with the number of posts carrying it.
pub open spec fn summarizes_tags(r: Seq<TagSummaryView>, posts: Seq<PostView>) -> bool {
    &&& names_in_order(r.map_values(|t: TagSummaryView| t.name))
    &&& forall|i: int| 0 <= i < r.len() ==> tag_used(posts, (#[trigger] r[i]).name) && r[i].post_count
        == posts_tagged(posts, r[i].name).len()
    &&& forall|tag: Seq<char>| tag_used(posts, tag) ==> exists|i: int| 0 <= i < r.len() && (#[trigger] r[i]).name == tag
}

/// The first position in `names` whose name does not come before `key`.
fn name_position(names: &Vec<String>, key: &Vec<char>) -> (pos: usize)
    ensures
        pos <= names@.len(),
        forall|q: int| 0 <= q < pos ==> seq_lt((#[trigger] names@[q])@, key@),
        pos < names@.len() ==> !seq_lt(names@[pos as int]@, key@),
{
    let mut pos: usize = 0;
    while pos < names.len()
        invariant
            pos <= names@.len(),
            forall|q: int| 0 <= q < pos ==> seq_lt((#[trigger] names@[q])@, key@),
        decreases names@.len() - pos,
    {
        let name = chars_of(names[pos].as_str());
        if !chars_less(&name, key) {
            return pos;
        }
        pos += 1;
    }
    pos
}

/// Adds `name` to a strictly ordered list of names, unless it is there.
fn insert_name(names: &mut Vec<String>, name: &String)
    requires
        names_in_order(strings_view(old(names)@)),
    ensures
        names_in_order(strings_view(final(names)@)),
        forall|t: Seq<char>| strings_view(final(names)@).contains(t) <==> (strings_view(old(names)@).contains(t) || t
            == name@),
{
    let ghost before = strings_view(names@);
    let key = chars_of(name.as_str());
    let pos = name_position(names, &key);
    if pos < names.len() {
        let here = chars_of(names[pos].as_str());
        if chars_equal(&here, &key) {
            assert(before[pos as int] == name@);
            return;
        }
    }
    names.insert(pos, name.clone());
    let ghost after = strings_view(names@);
    assert(after =~= before.insert(pos as int, name@));
    proof {
        if pos < before.len() {
            lemma_seq_lt_total(before[pos as int], name@);
        }
        assert forall|i: int, j: int| 0 <= i < j < after.len() implies seq_lt(#[trigger] after[i], #[trigger] after[j]) by {
            if j < pos {
            } else if j == pos {
                assert(after[i] == before[i]);
            } else if i == pos {
                assert(after[j] == before[j - 1]);
                if j - 1 > pos {
                    lemma_seq_lt_transitive(name@, before[pos as int], before[j - 1]);
                }
            } else if i < pos {
                assert(seq_lt(before[i], name@));
                assert(after[j] == before[j - 1]);
                if j - 1 == pos {
                    lemma_seq_lt_transitive(before[i], name@, before[j - 1]);
                } else {
                    lemma_seq_lt_transitive(name@, before[pos as int], before[j - 1]);
                    lemma_seq_lt_transitive(before[i], name@, before[j - 1]);
                }
            } else {
                assert(after[i] == before[i - 1]);
                assert(after[j] == before[j - 1]);
            }
        }
        assert forall|t: Seq<char>| after.contains(t) <==> (before.contains(t) || t == name@) by {
            if after.contains(t) {
                let k = choose|k: int| 0 <= k < after.len() && after[k] == t;
                if k < pos {
                    assert(before[k] == t);
                } else if k > pos {
                    assert(before[k - 1] == t);
                }
            }
            if before.contains(t) {
                let k = choose|k: int| 0 <= k < before.len() && before[k] == t;
                if k < pos {
                    assert(after[k] == t);
                } else {
                    assert(after[k + 1] == t);
                }
            }
            if t == name@ {
                assert(after[pos as int] == t);
            }
        }
    }
}

/// The number of posts carrying `tag`.
fn count_tagged(posts: &Vec<Post>, tag: &str) -> (n: usize)
    ensures
        n == posts_tagged(post_views(posts@), tag@).len(),
{
    let ghost all = post_views(posts@);
    let ghost keep = |p: PostView| has_tag(p, tag@);
    let mut n: usize = 0;
    let mut i: usize = 0;
    while i < posts.len()
        invariant
            i <= posts.len(),
            all == post_views(posts@),
            keep == (|p: PostView| has_tag(p, tag@)),
            n == all.take(i as int).filter(keep).len(),
            n <= i,
        decreases posts.len() - i,
    {
        assert(all.take(i + 1) =~= all.take(i as int).push(all[i as int]));
        proof {
            all.take(i as int).lemma_filter_push(all[i as int], keep);
        }
        if post_has_tag(&posts[i], tag) {
            n += 1;
        }
        i += 1;
    }
    assert(all.take(posts.len() as int) =~= all);
    n
}


/// Some post among the first `n` carries the tag.
pub open spec fn tag_used_before(posts: Seq<PostView>, n: int, tag: Seq<char>) -> bool {
    exists|j: int| 0 <= j < n && has_tag(#[trigger] posts[j], tag)
}

/// The distinct tags of the posts, by name.
fn tag_names(posts: &Vec<Post>) -> (names: Vec<String>)
    ensures
        names_in_order(strings_view(names@)),
        forall|t: Seq<char>| #[trigger] strings_view(names@).contains(t) <==> tag_used(post_views(posts@), t),
{
    let ghost all = post_views(posts@);
    let mut names: Vec<String> = Vec::new();
    let mut i: usize = 0;
    while i < posts.len()
        invariant
            i <= posts@.len(),
            all == post_views(posts@),
            names_in_order(strings_view(names@)),
            forall|t: Seq<char>| #[trigger] strings_view(names@).contains(t) <==> tag_used_before(all, i as int, t),
        decreases posts@.len() - i,
    {
        let ghost tags = all[i as int].tags;
        assert(tags == strings_view(posts@[i as int].tags@));
        let mut k: usize = 0;
        while k < posts[i].tags.len()
            invariant
                i < posts@.len(),
                k <= tags.len(),
                tags.len() == posts@[i as int].tags@.len(),
                tags == strings_view(posts@[i as int].tags@),
                names_in_order(strings_view(names@)),
                forall|t: Seq<char>| #[trigger] strings_view(names@).contains(t) <==> (tag_used_before(all, i as int, t)
                    || tags.take(k as int).contains(t)),
            decreases tags.len() - k,
        {
            let ghost names0 = strings_view(names@);
            insert_name(&mut names, &posts[i].tags[k]);
            assert(posts@[i as int].tags@[k as int]@ == tags[k as int]);
            let ghost front = tags.take(k as int);
            assert(tags.take(k + 1) =~= front.push(tags[k as int]));
            assert forall|t: Seq<char>| #[trigger] strings_view(names@).contains(t) <==> (tag_used_before(all, i as int, t)
                || tags.take(k + 1).contains(t)) by {
                if front.push(tags[k as int]).contains(t) && t != tags[k as int] {
                    let q = choose|q: int| 0 <= q < k + 1 && front.push(tags[k as int])[q] == t;
                    assert(front[q] == t);
                }
                if front.contains(t) {
                    let q = choose|q: int| 0 <= q < k && front[q] == t;
                    assert(front.push(tags[k as int])[q] == t);
                }
                assert(front.push(tags[k as int])[k as int] == tags[k as int]);
            }
            k += 1;
        }
        assert(tags.take(k as int) =~= tags);
        assert forall|t: Seq<char>| tag_used_before(all, i + 1, t) <==> (tag_used_before(all, i as int, t)
            || tags.contains(t)) by {
            if tag_used_before(all, i + 1, t) {
                let j = choose|j: int| 0 <= j < i + 1 && has_tag(#[trigger] all[j], t);
                if j < i {
                    assert(tag_used_before(all, i as int, t));
                }
            }
            if tags.contains(t) {
                assert(has_tag(all[i as int], t));
            }
        }
        i += 1;
    }
    assert forall|t: Seq<char>| tag_used_before(all, all.len() as int, t) <==> tag_used(all, t) by {}
    names
}

impl EmbeddedContentRepository {
    /// Every tag of the served posts once, by name, with the number of
    /// posts that carry it.
    pub fn tags(&self) -> (r: Vec<TagSummary>)
        ensures
            is_consistent(self@),
            summarizes_tags(r@.map_values(|t: TagSummary| t@), self@.posts),
    {
        proof {
            use_type_invariant(self);
        }
        let ghost posts = self@.posts;
        let names = tag_names(&self.posts);
        let ghost nv = strings_view(names@);
        let mut r: Vec<TagSummary> = Vec::new();
        let mut n: usize = 0;
        while n < names.len()
            invariant
                n <= names@.len(),
                posts == post_views(self.posts@),
                nv == strings_view(names@),
                r@.len() == n,
                forall|a: int| 0 <= a < n ==> (#[trigger] r@[a])@.name == nv[a] && r@[a].post_count == posts_tagged(
                    posts,
                    nv[a],
                ).len(),
            decreases names@.len() - n,
        {
            let count = count_tagged(&self.posts, names[n].as_str());
            r.push(TagSummary { name: names[n].clone(), post_count: count });
            n += 1;
        }
        let ghost rv = r@.map_values(|t: TagSummary| t@);
        assert(rv.map_values(|t: TagSummaryView| t.name) =~= nv);
        assert forall|i: int| 0 <= i < rv.len() implies tag_used(posts, (#[trigger] rv[i]).name) && rv[i].post_count
            == posts_tagged(posts, rv[i].name).len() by {
            assert(nv.contains(nv[i]));
        }
        assert forall|tag: Seq<char>| tag_used(posts, tag) implies exists|i: int| 0 <= i < rv.len() && (#[trigger] rv[i]).name
            == tag by {
            assert(nv.contains(tag));
            let i = choose|i: int| 0 <= i < nv.len() && nv[i] == tag;
            assert(rv[i].name == tag);
        }
        r
    }

    /// The served posts carrying `tag`, in order; `None` when no post
    /// carries it.
    pub fn posts_for_tag(&self, tag: &str) -> (r: Option<Vec<Post>>)
        ensures
            is_consistent(self@),
            match r {
                Some(v) => tag_used(self@.posts, tag@) && post_views(v@) == posts_tagged(self@.posts, tag@),
                None => !tag_used(self@.posts, tag@),
            },
    {
        proof {
            use_type_invariant(self);
        }
        let ghost posts = self@.posts;
        let ghost keep = |p: PostView| has_tag(p, tag@);
        let v = posts_where_tag(&self.posts, tag);
        proof {
            if tag_used(posts, tag@) {
                let j = choose|j: int| 0 <= j < posts.len() && has_tag(#[trigger] posts[j], tag@);
                posts.lemma_filter_contains(keep, j);
            }
            if post_views(v@).len() > 0 {
                posts.lemma_filter_pred(keep, 0);
                posts.lemma_filter_contains_rev(keep, posts.filter(keep)[0]);
                let j = choose|j: int| 0 <= j < posts.len() && posts[j] == posts.filter(keep)[0];
                assert(has_tag(posts[j], tag@));
            }
        }
        if v.len() == 0 {
            None
        } else {
            Some(v)
        }
    }

    /// Every module, by name.
    pub fn modules(&self) -> (r: Vec<GoModule>)
        ensures
            is_consistent(self@),
            module_views(r@) == self@.modules,
    {
        proof {
            use_type_invariant(self);
        }
        copy_modules(&self.modules)
    }

    /// The module named `name`, if there is one.
    pub fn module(&self, name: &str) -> (r: Option<GoModule>)
        ensures
            is_consistent(self@),
            match r {
                Some(m) => m@.name == name@ && self@.modules.contains(m@),
                None => forall|i: int| 0 <= i < self@.modules.len() ==> (#[trigger] self@.modules[i]).name != name@,
            },
    {
        proof {
            use_type_invariant(self);
        }
        let mut i: usize = 0;
        while i < self.modules.len()
            invariant
                i <= self.modules@.len(),
                forall|k: int| 0 <= k < i ==> (#[trigger] self@.modules[k]).name != name@,
            decreases self.modules@.len() - i,
        {
            if crate::text::str_equal(self.modules[i].name.as_str(), name) {
                proof {
                    use_type_invariant(self);
                }
                let m = self.modules[i].duplicate();
                assert(self@.modules[i as int] == m@);
                return Some(m);
            }
            assert(self@.modules[i as int] == self.modules@[i as int]@);
            i += 1;
        }
        None
    }

    /// A word and a slogan, each picked at random from the site data's lists.
    pub fn branding(&self) -> (b: Branding)
        ensures
            is_consistent(self@),
            self@.words.contains(b@.word),
            self@.slogans.contains(b@.slogan),
    {
        proof {
            use_type_invariant(self);
        }
        let word = match choose_one(&self.words) {
            Some(w) => w.clone(),
            None => {
                assert(false);
                String::new()
            },
        };
        let slogan = match choose_one(&self.slogans) {
            Some(s) => s.clone(),
            None => {
                assert(false);
                String::new()
            },
        };
        proof {
            let i = choose|i: int| 0 <= i < self.words@.len() && self.words@[i]@ == word@;
            assert(self@.words[i] == word@);
            let j = choose|j: int| 0 <= j < self.slogans@.len() && self.slogans@[j]@ == slogan@;
            assert(self@.slogans[j] == slogan@);
        }
        Branding { word, slogan }
    }
}

} // verus!
