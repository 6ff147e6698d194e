use std::path::PathBuf;

use dathagerty::assets::{check_stylesheet, ApplicationAssetError, StylesheetAsset};

fn asset(file_name: Option<&str>, content_type: &str) -> StylesheetAsset {
    StylesheetAsset {
        path: PathBuf::from("assets/styles-0123.css"),
        file_name: file_name.map(str::to_owned),
        content_type: content_type.to_owned(),
    }
}

#[test]
fn application_assets_reject_a_bundle_without_the_stylesheet_id() {
    let error = check_stylesheet(None).unwrap_err();

    assert!(matches!(error, ApplicationAssetError::MissingStylesheet));
}

#[test]
fn a_servable_stylesheet_is_checked_for_reading_at_its_path() {
    let path = check_stylesheet(Some(asset(Some("styles-0123.css"), "text/css"))).unwrap();

    assert_eq!(path, PathBuf::from("assets/styles-0123.css"));
}

#[test]
fn a_stylesheet_without_a_utf8_name_is_not_servable() {
    let error = check_stylesheet(Some(asset(None, "text/css"))).unwrap_err();

    assert!(matches!(
        error,
        ApplicationAssetError::UnservableStylesheet { ref path, reason: "filename is missing or is not valid UTF-8" }
            if path == &PathBuf::from("assets/styles-0123.css")
    ));
}

#[test]
fn a_stylesheet_served_as_another_type_is_not_servable() {
    let error = check_stylesheet(Some(asset(Some("styles.css"), "text/plain"))).unwrap_err();

    assert!(matches!(
        error,
        ApplicationAssetError::UnservableStylesheet { reason: "content type is not text/css", .. }
    ));
}
