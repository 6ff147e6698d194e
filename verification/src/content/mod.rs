pub mod embedded;
pub mod error;
pub mod file_order;
pub mod laws;
pub mod markdown;
pub mod model;
pub mod order;

pub use embedded::{EmbeddedContentRepository, ModuleData, ParseOutcome, ParseRequest, ReadingData, SiteData};
pub use error::{ContentError, ContentErrorView};
pub use markdown::{
    document_parts, page_from_parts, post_from_parts, slug_from_path, PageFrontmatter, PostFrontmatter,
};
pub use model::{Branding, Date, GoModule, Page, Post, TagSummary};
