//! What the page views compute before rendering: per-request metadata, the
//! Go discovery tags, tag links and the build commit shown in the footer.
use vstd::prelude::*;

use crate::bindings::{
    parse_url, path_segment_encoding, percent_encode_bytes, percent_escape_byte, push_char, url_parse,
};
use crate::content::{Branding, GoModule};
use crate::text::{append, chars_of, is_ascii_hexdigit, opt_view, str_equal, string_of};

verus! {

broadcast use vstd::string::group_string_axioms;

/// `s` without its trailing `/` characters.
pub open spec fn trim_trailing_slashes(s: Seq<char>) -> Seq<char>
    decreases s.len(),
{
    if s.len() > 0 && s.last() == '/' {
        trim_trailing_slashes(s.drop_last())
    } else {
        s
    }
}

/// The `go-source` directory and file templates of a known forge, for a
/// repository URL without trailing slashes.
pub open spec fn forge_templates(host: Seq<char>, repository: Seq<char>) -> Option<(Seq<char>, Seq<char>)> {
    if host == "git.sr.ht"@ {
        Some((repository + "/tree/main/item{/dir}"@, repository + "/tree/main/item{/dir}/{file}#L{line}"@))
    } else if host == "github.com"@ {
        Some((repository + "/tree/main{/dir}"@, repository + "/blob/main{/dir}/{file}#L{line}"@))
    } else {
        None
    }
}

/// The `go-source` meta content for a module hosted at `repository_url`.
pub open spec fn go_source(import_path: Seq<char>, repository_url: Seq<char>) -> Option<Seq<char>> {
    match url_parse(repository_url) {
        Some((_, Some(host))) => match forge_templates(host, trim_trailing_slashes(repository_url)) {
            Some((directory, file)) => Some(
                import_path + " "@ + repository_url + " "@ + directory + " "@ + file,
            ),
            None => None,
        },
        _ => None,
    }
}

/// The Go toolchain's discovery data for a vanity import path.
#[derive(Clone, Debug, PartialEq, Eq)]
pub struct GoMetadata {
    import_path: String,
    repository_url: String,
}

pub struct GoMetadataView {
    pub import_path: Seq<char>,
    pub repository_url: Seq<char>,
}

impl View for GoMetadata {
    type V = GoMetadataView;

    closed spec fn view(&self) -> GoMetadataView {
        GoMetadataView { import_path: self.import_path@, repository_url: self.repository_url@ }
    }
}

/// The length of `v` without its trailing `/` characters.
fn trimmed_len(v: &Vec<char>) -> (n: usize)
    ensures
        n <= v.len(),
        v@.subrange(0, n as int) == trim_trailing_slashes(v@),
{
    let mut n = v.len();
    assert(v@.subrange(0, n as int) =~= v@);
    while n > 0 && v[n - 1] == '/'
        invariant
            n <= v.len(),
            trim_trailing_slashes(v@.subrange(0, n as int)) == trim_trailing_slashes(v@),
        decreases n,
    {
        assert(v@.subrange(0, n as int).drop_last() =~= v@.subrange(0, n - 1));
        n -= 1;
    }
    n
}

impl GoMetadata {
    /// A copy of this metadata.
    pub fn duplicate(&self) -> (g: GoMetadata)
        ensures
            g@ == self@,
    {
        GoMetadata { import_path: self.import_path.clone(), repository_url: self.repository_url.clone() }
    }

    /// The `go-import` meta content: `<import path> git <repository>`.
    pub fn import_content(&self) -> (s: String)
        ensures
            s@ == self@.import_path + " git "@ + self@.repository_url,
    {
        let mut s = self.import_path.clone();
        append(&mut s, " git ");
        append(&mut s, self.repository_url.as_str());
        s
    }

    /// The `go-source` meta content, for repositories on sourcehut and GitHub;
    /// `None` for other hosts and for URLs without a host.
    pub fn source_content(&self) -> (s: Option<String>)
        ensures
            opt_view(s) == go_source(self@.import_path, self@.repository_url),
    {
        let host = match parse_url(self.repository_url.as_str()) {
            Some((_, Some(host))) => host,
            _ => return None,
        };
        let url = chars_of(self.repository_url.as_str());
        let n = trimmed_len(&url);
        let repository = string_of(&url, 0, n);
        let (mut directory, mut file) = (repository.clone(), repository.clone());
        if str_equal(host.as_str(), "git.sr.ht") {
            append(&mut directory, "/tree/main/item{/dir}");
            append(&mut file, "/tree/main/item{/dir}/{file}#L{line}");
        } else if str_equal(host.as_str(), "github.com") {
            append(&mut directory, "/tree/main{/dir}");
            append(&mut file, "/blob/main{/dir}/{file}#L{line}");
        } else {
            return None;
        }
        let mut s = self.import_path.clone();
        append(&mut s, " ");
        append(&mut s, self.repository_url.as_str());
        append(&mut s, " ");
        append(&mut s, directory.as_str());
        append(&mut s, " ");
        append(&mut s, file.as_str());
        Some(s)
    }
}

/// The `<head>` metadata of a page.
#[derive(Clone, Debug, PartialEq, Eq)]
pub struct PageMetadata {
    pub title: String,
    pub description: String,
    pub go: Option<GoMetadata>,
}

pub struct PageMetadataView {
    pub title: Seq<char>,
    pub description: Seq<char>,
    pub go: Option<GoMetadataView>,
}

impl View for PageMetadata {
    type V = PageMetadataView;

    open spec fn view(&self) -> PageMetadataView {
        PageMetadataView {
            title: self.title@,
            description: self.description@,
            go: match self.go {
                Some(g) => Some(g@),
                None => None,
            },
        }
    }
}

/// The site's title, used where a page has none of its own.
pub open spec fn default_title() -> Seq<char> {
    "dathagerty.com"@
}

/// The site's description, used where a page has none of its own.
pub open spec fn default_description() -> Seq<char> {
    "David Hagerty's personal website and assorted ramblings."@
}

impl PageMetadata {
    /// Metadata with the given title and description and no Go discovery data.
    pub fn new(title: String, description: String) -> (m: PageMetadata)
        ensures
            m@.title == title@,
            m@.description == description@,
            m@.go is None,
    {
        PageMetadata { title, description, go: None }
    }

    /// Metadata for a Go module's page: `<name> | dathagerty.com`, the module's
    /// description, and its discovery data.
    pub fn for_module(module: &GoModule) -> (m: PageMetadata)
        ensures
            m@.title == module.name@ + " | dathagerty.com"@,
            m@.description == module.description@,
            m@.go == Some(GoMetadataView { import_path: module.import_path@, repository_url: module.repository_url@ }),
    {
        let mut title = module.name.clone();
        append(&mut title, " | dathagerty.com");
        PageMetadata {
            title,
            description: module.description.clone(),
            go: Some(GoMetadata {
                import_path: module.import_path.clone(),
                repository_url: module.repository_url.clone(),
            }),
        }
    }

    /// A copy of this metadata.
    pub fn duplicate(&self) -> (m: PageMetadata)
        ensures
            m@ == self@,
    {
        PageMetadata {
            title: self.title.clone(),
            description: self.description.clone(),
            go: match &self.go {
                Some(g) => Some(g.duplicate()),
                None => None,
            },
        }
    }
}

impl Default for PageMetadata {
    fn default() -> (m: PageMetadata)
        ensures
            m@.title == default_title(),
            m@.description == default_description(),
            m@.go is None,
    {
        PageMetadata::new("dathagerty.com".to_string(), "David Hagerty's personal website and assorted ramblings.".to_string())
    }
}

/// What one request's page knows about its layout: metadata and branding.
#[derive(Clone, Debug)]
pub struct RequestViewData {
    pub metadata: PageMetadata,
    pub branding: Branding,
}

/// The per-request view state that a page fills in and the layout reads.
#[derive(Debug)]
pub struct RequestView {
    metadata: PageMetadata,
    branding: Branding,
}

impl RequestView {
    pub closed spec fn metadata_view(&self) -> PageMetadataView {
        self.metadata@
    }

    pub closed spec fn branding_view(&self) -> crate::content::model::BrandingView {
        self.branding@
    }

    pub fn new(metadata: PageMetadata, branding: Branding) -> (v: RequestView)
        ensures
            v.metadata_view() == metadata@,
            v.branding_view() == branding@,
    {
        RequestView { metadata, branding }
    }

    /// Replaces the metadata; the branding stays.
    pub fn set_metadata(&mut self, metadata: PageMetadata)
        ensures
            final(self).metadata_view() == metadata@,
            final(self).branding_view() == old(self).branding_view(),
    {
        self.metadata = metadata;
    }

    /// Replaces the branding; the metadata stays.
    pub fn set_branding(&mut self, branding: Branding)
        ensures
            final(self).branding_view() == branding@,
            final(self).metadata_view() == old(self).metadata_view(),
    {
        self.branding = branding;
    }

    /// The current metadata.
    pub fn metadata(&self) -> (m: PageMetadata)
        ensures
            m@ == self.metadata_view(),
    {
        self.snapshot().metadata
    }

    /// The current metadata and branding together.
    pub fn snapshot(&self) -> (d: RequestViewData)
        ensures
            d.metadata@ == self.metadata_view(),
            d.branding@ == self.branding_view(),
    {
        RequestViewData { metadata: self.metadata.duplicate(), branding: self.branding.duplicate() }
    }
}

impl Default for RequestView {
    fn default() -> (v: RequestView)
        ensures
            v.metadata_view().title == default_title(),
            v.metadata_view().description == default_description(),
            v.metadata_view().go is None,
            v.branding_view().word == "deliriums"@,
            v.branding_view().slogan == "a little rusty"@,
    {
        RequestView::new(
            PageMetadata::default(),
            Branding { word: "deliriums".to_string(), slogan: "a little rusty".to_string() },
        )
    }
}

/// A revision that looks like a Git commit id: 7 to 64 hexadecimal digits.
pub open spec fn is_plausible_commit_hash(hash: Seq<char>) -> bool {
    &&& 7 <= hash.len() <= 64
    &&& forall|i: int| 0 <= i < hash.len() ==> is_ascii_hexdigit(#[trigger] hash[i])
}

/// Whether `hash` looks like a Git commit id.
pub fn plausible_commit_hash(hash: &str) -> (b: bool)
    ensures
        b == is_plausible_commit_hash(hash@),
{
    let v = chars_of(hash);
    if v.len() < 7 || v.len() > 64 {
        return false;
    }
    let mut i: usize = 0;
    while i < v.len()
        invariant
            0 <= i <= v.len(),
            v@ == hash@,
            forall|j: int| 0 <= j < i ==> is_ascii_hexdigit(#[trigger] v@[j]),
        decreases v.len() - i,
    {
        let c = v[i];
        if !(('a' <= c && c <= 'f') || ('A' <= c && c <= 'F') || ('0' <= c && c <= '9')) {
            return false;
        }
        i += 1;
    }
    true
}

/// The revision shown in the footer: the deployment platform's, when it is
/// plausible, else the build's own, when that is plausible, else none.
pub fn select_commit_hash<'a>(railway_hash: Option<&'a str>, build_info_hash: Option<&'a str>) -> (h: Option<&'a str>)
    ensures
        h == (if railway_hash is Some && is_plausible_commit_hash(railway_hash->0@) {
            railway_hash
        } else if build_info_hash is Some && is_plausible_commit_hash(build_info_hash->0@) {
            build_info_hash
        } else {
            None
        }),
{
    if let Some(hash) = railway_hash {
        if plausible_commit_hash(hash) {
            return railway_hash;
        }
    }
    if let Some(hash) = build_info_hash {
        if plausible_commit_hash(hash) {
            return build_info_hash;
        }
    }
    None
}

/// The link to a tag's page: `/tags/` and the tag, percent-encoded as one
/// path segment.
pub fn tag_href(tag: &str) -> (href: String)
    ensures
        href@ == "/tags/"@ + path_segment_encoding(tag@),
{
    let mut href = "/tags/".to_string();
    let bytes = tag.as_bytes();
    let ghost start = href@;
    let mut i: usize = 0;
    assert(bytes@.skip(0) =~= bytes@);
    while i < bytes.len()
        invariant
            0 <= i <= bytes.len(),
            bytes@ == vstd::utf8::encode_utf8(tag@),
            href@ + percent_encode_bytes(bytes@.skip(i as int)) == start + percent_encode_bytes(bytes@),
        decreases bytes.len() - i,
    {
        let b = bytes[i];
        let ghost before = href@;
        if (0x30 <= b && b <= 0x39) || (0x41 <= b && b <= 0x5a) || (0x61 <= b && b <= 0x7a) || b == 0x2d
            || b == 0x2e || b == 0x5f || b == 0x7e {
            push_char(&mut href, b as char);
        } else {
            append(&mut href, percent_escape_byte(b));
        }
        assert(bytes@.skip(i as int).drop_first() =~= bytes@.skip(i + 1));
        assert(href@ + percent_encode_bytes(bytes@.skip(i + 1)) =~= before + percent_encode_bytes(bytes@.skip(i as int)));
        i += 1;
    }
    assert(bytes@.skip(bytes.len() as int) =~= Seq::<u8>::empty());
    href
}

/// The texts of a Go module's page: where its package documentation and
/// license are, and how to fetch and import it.
pub struct ModuleInstructions {
    pub package_url: String,
    pub godocs_url: String,
    pub license_url: String,
    pub get_command: String,
    pub import_line: String,
}

/// The instruction texts for `module`.
pub fn module_instructions_text(module: &GoModule) -> (t: ModuleInstructions)
    ensures
        t.package_url@ == "https://pkg.go.dev/"@ + module.import_path@,
        t.godocs_url@ == "https://godocs.io/"@ + module.import_path@,
        t.license_url@ == module.repository_url@ + "/tree/main/item/LICENSE"@,
        t.get_command@ == "$ go get "@ + module.import_path@,
        t.import_line@ == "import \""@ + module.import_path@ + "\""@,
{
    let mut package_url = "https://pkg.go.dev/".to_owned();
    append(&mut package_url, module.import_path.as_str());
    let mut godocs_url = "https://godocs.io/".to_owned();
    append(&mut godocs_url, module.import_path.as_str());
    let mut license_url = module.repository_url.clone();
    append(&mut license_url, "/tree/main/item/LICENSE");
    let mut get_command = "$ go get ".to_owned();
    append(&mut get_command, module.import_path.as_str());
    let mut import_line = "import \"".to_owned();
    append(&mut import_line, module.import_path.as_str());
    append(&mut import_line, "\"");
    ModuleInstructions { package_url, godocs_url, license_url, get_command, import_line }
}

/// The link to a commit of the site's repository.
pub fn commit_href(commit_hash: &str) -> (href: String)
    ensures
        href@ == "https://github.com/dathagerty/website/commit/"@ + commit_hash@,
{
    let mut href = "https://github.com/dathagerty/website/commit/".to_owned();
    append(&mut href, commit_hash);
    href
}

/// A character that cannot end or split a URL path segment.
pub open spec fn is_segment_delimiter(c: char) -> bool {
    c == '/' || c == '?' || c == '#'
}

/// Percent-encoded bytes hold no character that ends or splits a segment.
proof fn lemma_encoding_has_no_delimiter(bytes: Seq<u8>)
    ensures
        forall|i: int| 0 <= i < percent_encode_bytes(bytes).len() ==> !is_segment_delimiter(
            #[trigger] percent_encode_bytes(bytes)[i],
        ),
    decreases bytes.len(),
{
    if bytes.len() > 0 {
        let b = bytes[0];
        lemma_encoding_has_no_delimiter(bytes.drop_first());
        let rest = percent_encode_bytes(bytes.drop_first());
        let head = if crate::bindings::is_unreserved_byte(b) {
            seq![b as char]
        } else {
            seq!['%', crate::bindings::hex_digit_upper(b / 16), crate::bindings::hex_digit_upper(b % 16)]
        };
        assert(percent_encode_bytes(bytes) == head + rest);
        assert forall|i: int| 0 <= i < head.len() implies !is_segment_delimiter(#[trigger] head[i]) by {
            if !crate::bindings::is_unreserved_byte(b) && i > 0 {
                let d: u8 = if i == 1 { (b / 16) as u8 } else { (b % 16) as u8 };
                assert(d < 16);
                assert(head[i] == crate::bindings::hex_digit_upper(d));
            }
        }
        assert forall|i: int| 0 <= i < percent_encode_bytes(bytes).len() implies !is_segment_delimiter(
            #[trigger] percent_encode_bytes(bytes)[i],
        ) by {
            if i >= head.len() {
                assert(percent_encode_bytes(bytes)[i] == rest[i - head.len()]);
            } else {
                assert(percent_encode_bytes(bytes)[i] == head[i]);
            }
        }
    }
}

/// A tag link names one path segment below `/tags/`: whatever the tag holds,
/// the encoded part has no `/`, `?` or `#`.
pub proof fn law_tag_link_is_one_segment(tag: Seq<char>)
    ensures
        forall|i: int| 0 <= i < path_segment_encoding(tag).len() ==> !is_segment_delimiter(
            #[trigger] path_segment_encoding(tag)[i],
        ),
{
    lemma_encoding_has_no_delimiter(vstd::utf8::encode_utf8(tag));
}

} // verus!
