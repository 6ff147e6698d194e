//! The check that the asset bundle can serve the application stylesheet.
use vstd::prelude::*;

use std::path::PathBuf;

verus! {

/// Why the application's assets cannot be served.
#[derive(Debug)]
pub enum ApplicationAssetError {
    Load(std::io::Error),
    MissingStylesheet,
    UnreadableStylesheet { path: PathBuf, source: std::io::Error },
    UnservableStylesheet { path: PathBuf, reason: &'static str },
}

/// What the bundle's stylesheet entry says: the path of its file, the
/// file's name where the path has one that is UTF-8 text, and the content
/// type it is served with.
pub struct StylesheetAsset {
    pub path: PathBuf,
    pub file_name: Option<String>,
    pub content_type: String,
}

/// The reason given for a stylesheet without a usable file name.
pub open spec fn unnamed_reason() -> Seq<char> {
    "filename is missing or is not valid UTF-8"@
}

/// The reason given for a stylesheet served as something other than CSS.
pub open spec fn not_css_reason() -> Seq<char> {
    "content type is not text/css"@
}

/// Checks the bundle's stylesheet entry, if it has one: the file must have
/// a UTF-8 name and be served as `text/css`. On success, the path of the
/// file, which must then still be readable.
pub fn check_stylesheet(asset: Option<StylesheetAsset>) -> (r: Result<PathBuf, ApplicationAssetError>)
    ensures
        match asset {
            None => r matches Err(ApplicationAssetError::MissingStylesheet),
            Some(a) => if a.file_name is None {
                r matches Err(ApplicationAssetError::UnservableStylesheet { path, reason }) && path == a.path
                    && reason@ == unnamed_reason()
            } else if a.content_type@ != "text/css"@ {
                r matches Err(ApplicationAssetError::UnservableStylesheet { path, reason }) && path == a.path
                    && reason@ == not_css_reason()
            } else {
                r matches Ok(path) && path == a.path
            },
        },
{
    let asset = match asset {
        Some(asset) => asset,
        None => return Err(ApplicationAssetError::MissingStylesheet),
    };
    if asset.file_name.is_none() {
        return Err(
            ApplicationAssetError::UnservableStylesheet {
                path: asset.path,
                reason: "filename is missing or is not valid UTF-8",
            },
        );
    }
    if !crate::text::str_equal(asset.content_type.as_str(), "text/css") {
        return Err(
            ApplicationAssetError::UnservableStylesheet { path: asset.path, reason: "content type is not text/css" },
        );
    }
    Ok(asset.path)
}

} // verus!
