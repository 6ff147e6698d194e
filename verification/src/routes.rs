//! The decisions the route handlers make before they render: which path
//! segments are acceptable, and what metadata each page carries.
use vstd::prelude::*;

use crate::content::Post;
use crate::error::AppError;
use crate::text::{append, chars_of, is_ascii_alphanumeric, opt_view};
use crate::views::{default_description, PageMetadata};

verus! {

broadcast use vstd::string::group_string_axioms;

/// A path segment that no route accepts.
#[derive(Debug)]
pub struct InvalidPathParam;

/// Characters allowed in a post slug: ASCII letters, digits, `-` and `_`.
pub open spec fn is_slug_char(c: char) -> bool {
    is_ascii_alphanumeric(c) || c == '-' || c == '_'
}

/// A non-empty run of slug characters.
pub open spec fn is_simple_segment(s: Seq<char>) -> bool {
    s.len() > 0 && forall|i: int| 0 <= i < s.len() ==> is_slug_char(#[trigger] s[i])
}

/// A post slug, in a request path or a content file name, is accepted
/// exactly when it is non-empty and each of its characters is an ASCII
/// letter (lower or upper case), an ASCII digit, `-` or `_`.
pub proof fn law_slug_segments_are_ascii_words(s: Seq<char>)
    ensures
        is_simple_segment(s) <==> (s.len() > 0 && forall|i: int|
            0 <= i < s.len() ==> {
                let c = #[trigger] s[i];
                ||| 'a' <= c <= 'z'
                ||| 'A' <= c <= 'Z'
                ||| '0' <= c <= '9'
                ||| c == '-'
                ||| c == '_'
            }),
{
}

/// Whether every character of `v` is a slug character.
pub fn all_slug_chars(v: &Vec<char>) -> (b: bool)
    ensures
        b == forall|i: int| 0 <= i < v@.len() ==> is_slug_char(#[trigger] v@[i]),
{
    let mut i: usize = 0;
    while i < v.len()
        invariant
            0 <= i <= v.len(),
            forall|j: int| 0 <= j < i ==> is_slug_char(#[trigger] v@[j]),
        decreases v.len() - i,
    {
        let c = v[i];
        if !(('a' <= c && c <= 'z') || ('A' <= c && c <= 'Z') || ('0' <= c && c <= '9') || c == '-' || c == '_') {
            assert(!is_slug_char(v@[i as int]));
            return false;
        }
        i += 1;
    }
    true
}

/// A post slug taken from a request path.
#[derive(Debug)]
pub struct SimpleSegment(String);

impl SimpleSegment {
    pub closed spec fn view(&self) -> Seq<char> {
        self.0@
    }

    /// Accepts a non-empty segment of ASCII letters, digits, `-` and `_`.
    pub fn from_str(value: &str) -> (r: Result<SimpleSegment, InvalidPathParam>)
        ensures
            r is Ok <==> is_simple_segment(value@),
            r matches Ok(s) ==> s.view() == value@,
    {
        let v = chars_of(value);
        if v.len() == 0 || !all_slug_chars(&v) {
            return Err(InvalidPathParam);
        }
        Ok(SimpleSegment(value.to_string()))
    }

    pub fn as_str(&self) -> (s: &str)
        ensures
            s@ == self.view(),
    {
        self.0.as_str()
    }
}

/// Characters allowed in a Go module name: ASCII letters, digits, `-`, `.`,
/// `_` and `~`.
pub open spec fn is_module_name_char(c: char) -> bool {
    is_ascii_alphanumeric(c) || c == '-' || c == '.' || c == '_' || c == '~'
}

/// A Go module name: non-empty, of module name characters, neither starting
/// nor ending with `.`.
pub open spec fn is_valid_module_name(name: Seq<char>) -> bool {
    &&& name.len() > 0
    &&& name[0] != '.'
    &&& name.last() != '.'
    &&& forall|i: int| 0 <= i < name.len() ==> is_module_name_char(#[trigger] name[i])
}

/// Whether `name` can name a Go module under the vanity path.
pub fn valid_module_name(name: &str) -> (b: bool)
    ensures
        b == is_valid_module_name(name@),
{
    let v = chars_of(name);
    if v.len() == 0 || v[0] == '.' || v[v.len() - 1] == '.' {
        return false;
    }
    let mut i: usize = 0;
    while i < v.len()
        invariant
            0 <= i <= v.len(),
            v@ == name@,
            forall|j: int| 0 <= j < i ==> is_module_name_char(#[trigger] v@[j]),
        decreases v.len() - i,
    {
        let c = v[i];
        if !(('a' <= c && c <= 'z') || ('A' <= c && c <= 'Z') || ('0' <= c && c <= '9') || c == '-' || c == '.'
            || c == '_' || c == '~') {
            assert(!is_module_name_char(v@[i as int]));
            return false;
        }
        i += 1;
    }
    true
}

/// A module name taken from a request path.
#[derive(Debug)]
pub struct ModuleSegment(String);

impl ModuleSegment {
    pub closed spec fn view(&self) -> Seq<char> {
        self.0@
    }

    /// Accepts exactly the valid module names.
    pub fn from_str(value: &str) -> (r: Result<ModuleSegment, InvalidPathParam>)
        ensures
            r is Ok <==> is_valid_module_name(value@),
            r matches Ok(s) ==> s.view() == value@,
    {
        if valid_module_name(value) {
            Ok(ModuleSegment(value.to_string()))
        } else {
            Err(InvalidPathParam)
        }
    }

    pub fn as_str(&self) -> (s: &str)
        ensures
            s@ == self.view(),
    {
        self.0.as_str()
    }
}

/// Unicode control characters (general category Cc): U+0000 to U+001F and
/// U+007F to U+009F.
pub open spec fn is_control(c: char) -> bool {
    (c as u32) <= 0x1f || (0x7f <= (c as u32) && (c as u32) <= 0x9f)
}

/// A tag name from a request path: non-empty, without control characters
/// and without the replacement character U+FFFD.
pub open spec fn is_tag_segment(s: Seq<char>) -> bool {
    &&& s.len() > 0
    &&& forall|i: int| 0 <= i < s.len() ==> !is_control(#[trigger] s[i]) && s[i] != '\u{fffd}'
}

/// A tag name taken from a request path.
#[derive(Debug)]
pub struct TagSegment(String);

impl TagSegment {
    pub closed spec fn view(&self) -> Seq<char> {
        self.0@
    }

    /// Accepts non-empty segments free of control and replacement characters.
    pub fn from_str(value: &str) -> (r: Result<TagSegment, InvalidPathParam>)
        ensures
            r is Ok <==> is_tag_segment(value@),
            r matches Ok(s) ==> s.view() == value@,
    {
        let v = chars_of(value);
        if v.len() == 0 {
            return Err(InvalidPathParam);
        }
        let mut i: usize = 0;
        while i < v.len()
            invariant
                0 <= i <= v.len(),
                v@ == value@,
                forall|j: int| 0 <= j < i ==> !is_control(#[trigger] v@[j]) && v@[j] != '\u{fffd}',
            decreases v.len() - i,
        {
            let c = v[i];
            if (c as u32) <= 0x1f || (0x7f <= (c as u32) && (c as u32) <= 0x9f) || c == '\u{fffd}' {
                return Err(InvalidPathParam);
            }
            i += 1;
        }
        Ok(TagSegment(value.to_string()))
    }

    pub fn as_str(&self) -> (s: &str)
        ensures
            s@ == self.view(),
    {
        self.0.as_str()
    }
}

/// The `<title>` of a content page: the site title alone for the page titled
/// like the site, else `<title> | dathagerty.com`.
pub open spec fn spec_page_title(title: Seq<char>) -> Seq<char> {
    if title == "dathagerty.com"@ {
        title
    } else {
        title + " | dathagerty.com"@
    }
}

pub fn page_title(title: &str) -> (t: String)
    ensures
        t@ == spec_page_title(title@),
{
    let mut t = title.to_string();
    if !crate::text::str_equal(title, "dathagerty.com") {
        append(&mut t, " | dathagerty.com");
    }
    t
}

/// The metadata of the content page `slug` titled `title`: the site's own
/// description for the home page, `<title> on dathagerty.com` for the others.
pub fn content_page_metadata(slug: &str, title: &str) -> (m: PageMetadata)
    ensures
        m@.title == spec_page_title(title@),
        m@.description == (if slug@ == "root"@ {
            default_description()
        } else {
            title@ + " on dathagerty.com"@
        }),
        m@.go is None,
{
    let description = if crate::text::str_equal(slug, "root") {
        PageMetadata::default().description
    } else {
        let mut d = title.to_string();
        append(&mut d, " on dathagerty.com");
        d
    };
    PageMetadata::new(page_title(title), description)
}

/// The metadata of a post's page: `<title> | dathagerty.com`, described by
/// the post's summary or, without one, `A post on dathagerty.com`.
pub fn post_page_metadata(post: &Post) -> (m: PageMetadata)
    ensures
        m@.title == post@.title + " | dathagerty.com"@,
        m@.description == (match post@.summary {
            Some(summary) => summary,
            None => "A post on dathagerty.com"@,
        }),
        m@.go is None,
{
    let mut title = post.title.clone();
    append(&mut title, " | dathagerty.com");
    let description = match &post.summary {
        Some(summary) => summary.clone(),
        None => "A post on dathagerty.com".to_string(),
    };
    PageMetadata::new(title, description)
}

/// The metadata of a tag's page.
pub fn tag_page_metadata(tag: &str) -> (m: PageMetadata)
    ensures
        m@.title == tag@ + " | dathagerty.com"@,
        m@.description == "Posts tagged "@ + tag@ + " on dathagerty.com."@,
        m@.go is None,
{
    let mut title = tag.to_string();
    append(&mut title, " | dathagerty.com");
    let mut description = "Posts tagged ".to_string();
    append(&mut description, tag);
    append(&mut description, " on dathagerty.com.");
    PageMetadata::new(title, description)
}

/// The metadata of the blog's index page.
pub fn blog_index_metadata() -> (m: PageMetadata)
    ensures
        m@.title == "Blag | dathagerty.com"@,
        m@.description == "David Hagerty's blog posts."@,
        m@.go is None,
{
    PageMetadata::new("Blag | dathagerty.com".to_owned(), "David Hagerty's blog posts.".to_owned())
}

/// The metadata of the tag index page.
pub fn tags_index_metadata() -> (m: PageMetadata)
    ensures
        m@.title == "Tags | dathagerty.com"@,
        m@.description == "Tags used on dathagerty.com."@,
        m@.go is None,
{
    PageMetadata::new("Tags | dathagerty.com".to_owned(), "Tags used on dathagerty.com.".to_owned())
}

/// The metadata of the Go module index page.
pub fn modules_index_metadata() -> (m: PageMetadata)
    ensures
        m@.title == "Go Modules | dathagerty.com"@,
        m@.description == "Go modules published at dathagerty.com."@,
        m@.go is None,
{
    PageMetadata::new("Go Modules | dathagerty.com".to_owned(), "Go modules published at dathagerty.com.".to_owned())
}

/// The title of the page shown for a missing page.
pub open spec fn not_found_title() -> Seq<char> {
    "Not Found | dathagerty.com"@
}

/// The description of the page shown for a missing page.
pub open spec fn not_found_description() -> Seq<char> {
    "The requested page does not exist."@
}

/// The title of the page shown when the server fails.
pub open spec fn server_error_title() -> Seq<char> {
    "Server Error | dathagerty.com"@
}

/// The description of the page shown when the server fails.
pub open spec fn server_error_description() -> Seq<char> {
    "The server could not complete this request."@
}

/// The metadata of the page shown for a missing page.
pub fn not_found_metadata() -> (m: PageMetadata)
    ensures
        m@.title == not_found_title(),
        m@.description == not_found_description(),
        m@.go is None,
{
    PageMetadata::new("Not Found | dathagerty.com".to_owned(), "The requested page does not exist.".to_owned())
}

/// The metadata of the page shown when the server fails.
pub fn server_error_metadata() -> (m: PageMetadata)
    ensures
        m@.title == server_error_title(),
        m@.description == server_error_description(),
        m@.go is None,
{
    PageMetadata::new(
        "Server Error | dathagerty.com".to_owned(),
        "The server could not complete this request.".to_owned(),
    )
}

/// How a page that failed is answered: the status, the metadata, and for a
/// missing page the path reported missing.
pub struct FailurePage {
    pub status: u16,
    pub metadata: PageMetadata,
    pub missing_path: Option<String>,
}

/// The answer to a failed page. A route that matched nothing is missing at
/// the requested path; a request that failed with `AppError::NotFound` is
/// missing at the error's path; every other failure is a server error.
pub fn failure_page(route_missing: bool, error: Option<&AppError>, request_path: &str) -> (f: FailurePage)
    ensures
        route_missing ==> f.status == 404 && opt_view(f.missing_path) == Some(request_path@),
        !route_missing ==> (error matches Some(AppError::NotFound { path }) ==> f.status == 404 && opt_view(
            f.missing_path,
        ) == Some(path@)),
        !route_missing && !(error matches Some(AppError::NotFound { .. })) ==> f.status == 500 && f.missing_path is None,
        f.status == 404 ==> f.metadata@.title == not_found_title() && f.metadata@.description == not_found_description(),
        f.status == 500 ==> f.metadata@.title == server_error_title() && f.metadata@.description
            == server_error_description(),
        f.metadata@.go is None,
{
    if route_missing {
        return FailurePage { status: 404, metadata: not_found_metadata(), missing_path: Some(request_path.to_owned()) };
    }
    match error {
        Some(AppError::NotFound { path }) => FailurePage {
            status: 404,
            metadata: not_found_metadata(),
            missing_path: Some(path.clone()),
        },
        _ => FailurePage { status: 500, metadata: server_error_metadata(), missing_path: None },
    }
}

} // verus!
