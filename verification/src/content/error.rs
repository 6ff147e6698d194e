//! Why loading the content failed.
use vstd::prelude::*;

use crate::bindings::{debug_quoted, debug_text};
use crate::text::{append, decimal, decimal_text};

verus! {

/// A reason the content cannot be served. Paths are the content files'
/// paths as the embedding gives them.
#[derive(Debug)]
#[allow(inconsistent_fields)]
pub enum ContentError {
    MissingEmbeddedAsset { path: String },
    Utf8 { path: String, source: std::str::Utf8Error },
    UnexpectedFile { path: String },
    MissingData,
    DuplicateData,
    Json { path: String, source: serde_json::Error },
    InvalidFilename { path: String },
    MissingFrontmatter { path: String },
    MalformedFrontmatter { path: String },
    Yaml { path: String, source: serde_yaml_ng::Error },
    MissingField { path: String, field: &'static str },
    InvalidDate { path: String, field: &'static str, value: String, source: chrono::ParseError },
    Render { path: String, source: std::fmt::Error },
    DuplicateSlug { kind: &'static str, slug: String, first_path: String, second_path: String },
    MissingRequiredPage { slug: String },
    EmptyBranding { collection: &'static str },
    InvalidModule { index: usize, field: &'static str },
    DuplicateModule { name: String },
    DuplicateModulePath { import_path: String },
}

/// A content error with its texts as character sequences, and the
/// underlying error of each variant that has one.
#[allow(inconsistent_fields)]
pub enum ContentErrorView {
    MissingEmbeddedAsset { path: Seq<char> },
    Utf8 { path: Seq<char>, source: std::str::Utf8Error },
    UnexpectedFile { path: Seq<char> },
    MissingData,
    DuplicateData,
    Json { path: Seq<char>, source: serde_json::Error },
    InvalidFilename { path: Seq<char> },
    MissingFrontmatter { path: Seq<char> },
    MalformedFrontmatter { path: Seq<char> },
    Yaml { path: Seq<char>, source: serde_yaml_ng::Error },
    MissingField { path: Seq<char>, field: Seq<char> },
    InvalidDate { path: Seq<char>, field: Seq<char>, value: Seq<char>, source: chrono::ParseError },
    Render { path: Seq<char>, source: std::fmt::Error },
    DuplicateSlug { kind: Seq<char>, slug: Seq<char>, first_path: Seq<char>, second_path: Seq<char> },
    MissingRequiredPage { slug: Seq<char> },
    EmptyBranding { collection: Seq<char> },
    InvalidModule { index: usize, field: Seq<char> },
    DuplicateModule { name: Seq<char> },
    DuplicateModulePath { import_path: Seq<char> },
}

impl View for ContentError {
    type V = ContentErrorView;

    open spec fn view(&self) -> ContentErrorView {
        match *self {
            ContentError::MissingEmbeddedAsset { path } => ContentErrorView::MissingEmbeddedAsset { path: path@ },
            ContentError::Utf8 { path, source } => ContentErrorView::Utf8 { path: path@, source },
            ContentError::UnexpectedFile { path } => ContentErrorView::UnexpectedFile { path: path@ },
            ContentError::MissingData => ContentErrorView::MissingData,
            ContentError::DuplicateData => ContentErrorView::DuplicateData,
            ContentError::Json { path, source } => ContentErrorView::Json { path: path@, source },
            ContentError::InvalidFilename { path } => ContentErrorView::InvalidFilename { path: path@ },
            ContentError::MissingFrontmatter { path } => ContentErrorView::MissingFrontmatter { path: path@ },
            ContentError::MalformedFrontmatter { path } => ContentErrorView::MalformedFrontmatter { path: path@ },
            ContentError::Yaml { path, source } => ContentErrorView::Yaml { path: path@, source },
            ContentError::MissingField { path, field } => ContentErrorView::MissingField { path: path@, field: field@ },
            ContentError::InvalidDate { path, field, value, source } => ContentErrorView::InvalidDate {
                path: path@,
                field: field@,
                value: value@,
                source,
            },
            ContentError::Render { path, source } => ContentErrorView::Render { path: path@, source },
            ContentError::DuplicateSlug { kind, slug, first_path, second_path } => ContentErrorView::DuplicateSlug {
                kind: kind@,
                slug: slug@,
                first_path: first_path@,
                second_path: second_path@,
            },
            ContentError::MissingRequiredPage { slug } => ContentErrorView::MissingRequiredPage { slug: slug@ },
            ContentError::EmptyBranding { collection } => ContentErrorView::EmptyBranding { collection: collection@ },
            ContentError::InvalidModule { index, field } => ContentErrorView::InvalidModule { index, field: field@ },
            ContentError::DuplicateModule { name } => ContentErrorView::DuplicateModule { name: name@ },
            ContentError::DuplicateModulePath { import_path } => ContentErrorView::DuplicateModulePath {
                import_path: import_path@,
            },
        }
    }
}

/// The text a content error is shown with.
pub open spec fn error_message(e: ContentErrorView) -> Seq<char> {
    match e {
        ContentErrorView::MissingEmbeddedAsset { path } => "embedded content asset disappeared while loading: "@ + path,
        ContentErrorView::Utf8 { path, .. } => "embedded content is not valid UTF-8: "@ + path,
        ContentErrorView::UnexpectedFile { path } => "unexpected file in embedded content: "@ + path,
        ContentErrorView::MissingData => "embedded content is missing data.json"@,
        ContentErrorView::DuplicateData => "embedded content contains more than one data.json"@,
        ContentErrorView::Json { path, .. } => "could not deserialize JSON data in "@ + path,
        ContentErrorView::InvalidFilename { path } => "invalid content filename: "@ + path,
        ContentErrorView::MissingFrontmatter { path } => "content is missing YAML frontmatter: "@ + path,
        ContentErrorView::MalformedFrontmatter { path } => "content has malformed YAML frontmatter delimiters: "@ + path,
        ContentErrorView::Yaml { path, .. } => "could not deserialize YAML frontmatter in "@ + path,
        ContentErrorView::MissingField { path, field } => "content is missing required field "@ + field + ": "@ + path,
        ContentErrorView::InvalidDate { path, field, value, .. } => "invalid "@ + field + " date "@ + debug_quoted(value)
            + " in "@ + path,
        ContentErrorView::Render { path, .. } => "could not render Markdown in "@ + path,
        ContentErrorView::DuplicateSlug { kind, slug, first_path, second_path } => "duplicate "@ + kind + " slug "@
            + debug_quoted(slug) + " in "@ + first_path + " and "@ + second_path,
        ContentErrorView::MissingRequiredPage { slug } => "missing required page: "@ + slug,
        ContentErrorView::EmptyBranding { collection } => "branding collection "@ + collection
            + " must not be empty"@,
        ContentErrorView::InvalidModule { index, field } => "module "@ + decimal(index as nat) + " has invalid "@
            + field,
        ContentErrorView::DuplicateModule { name } => "duplicate module name: "@ + name,
        ContentErrorView::DuplicateModulePath { import_path } => "duplicate module path: "@ + import_path,
    }
}

/// `prefix` followed by `rest`.
fn joined(prefix: &str, rest: &str) -> (s: String)
    ensures
        s@ == prefix@ + rest@,
{
    let mut s = prefix.to_owned();
    append(&mut s, rest);
    s
}

impl ContentError {
    /// The text this error is shown with.
    pub fn message(&self) -> (m: String)
        ensures
            m@ == error_message(self@),
    {
        match self {
            ContentError::MissingEmbeddedAsset { path } => joined("embedded content asset disappeared while loading: ", path),
            ContentError::Utf8 { path, .. } => joined("embedded content is not valid UTF-8: ", path),
            ContentError::UnexpectedFile { path } => joined("unexpected file in embedded content: ", path),
            ContentError::MissingData => "embedded content is missing data.json".to_owned(),
            ContentError::DuplicateData => "embedded content contains more than one data.json".to_owned(),
            ContentError::Json { path, .. } => joined("could not deserialize JSON data in ", path),
            ContentError::InvalidFilename { path } => joined("invalid content filename: ", path),
            ContentError::MissingFrontmatter { path } => joined("content is missing YAML frontmatter: ", path),
            ContentError::MalformedFrontmatter { path } => joined(
                "content has malformed YAML frontmatter delimiters: ",
                path,
            ),
            ContentError::Yaml { path, .. } => joined("could not deserialize YAML frontmatter in ", path),
            ContentError::MissingField { path, field } => {
                let mut m = joined("content is missing required field ", field);
                append(&mut m, ": ");
                append(&mut m, path);
                m
            },
            ContentError::InvalidDate { path, field, value, .. } => {
                let mut m = joined("invalid ", field);
                append(&mut m, " date ");
                let quoted = debug_text(value);
                append(&mut m, &quoted);
                append(&mut m, " in ");
                append(&mut m, path);
                m
            },
            ContentError::Render { path, .. } => joined("could not render Markdown in ", path),
            ContentError::DuplicateSlug { kind, slug, first_path, second_path } => {
                let mut m = joined("duplicate ", kind);
                append(&mut m, " slug ");
                let quoted = debug_text(slug);
                append(&mut m, &quoted);
                append(&mut m, " in ");
                append(&mut m, first_path);
                append(&mut m, " and ");
                append(&mut m, second_path);
                m
            },
            ContentError::MissingRequiredPage { slug } => joined("missing required page: ", slug),
            ContentError::EmptyBranding { collection } => {
                let mut m = joined("branding collection ", collection);
                append(&mut m, " must not be empty");
                m
            },
            ContentError::InvalidModule { index, field } => {
                let number = decimal_text(*index);
                let mut m = joined("module ", &number);
                append(&mut m, " has invalid ");
                append(&mut m, field);
                m
            },
            ContentError::DuplicateModule { name } => joined("duplicate module name: ", name),
            ContentError::DuplicateModulePath { import_path } => joined("duplicate module path: ", import_path),
        }
    }
}

} // verus!
