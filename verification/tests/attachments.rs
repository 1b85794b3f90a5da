use paracord::error::ApiError;
use paracord::json::Json;
use paracord::routes::files::{
    attachment_file_name, attachment_url, check_attachment_delete, check_upload_size,
    download_content_type, inline_disposition, stored_attachment_name, uploaded_attachment_json,
};

#[test]
fn upload_size_limits() {
    assert_eq!(check_upload_size(10, 100).unwrap(), 10);
    assert_eq!(check_upload_size(100, 100).unwrap(), 100);
    match check_upload_size(0, 100) {
        Err(ApiError::BadRequest(m)) => assert_eq!(m, "Empty file"),
        other => panic!("unexpected {:?}", other),
    }
    match check_upload_size(101, 100) {
        Err(ApiError::BadRequest(m)) => assert_eq!(m, "File too large"),
        other => panic!("unexpected {:?}", other),
    }
}

#[test]
fn stored_names_and_urls() {
    assert_eq!(attachment_url(42), "/api/v1/attachments/42");
    assert_eq!(stored_attachment_name(42, Some("png")), "42.png");
    assert_eq!(stored_attachment_name(42, None), "42.bin");
    assert_eq!(attachment_file_name(7, "photo.jpeg"), "7.jpeg");
    assert_eq!(attachment_file_name(7, "README"), "7.bin");
    assert_eq!(attachment_file_name(7, ".bashrc"), "7.bin");
    assert_eq!(attachment_file_name(7, "uploads/archive.tar.gz"), "7.gz");
    assert_eq!(attachment_file_name(7, "notes."), "7.");
    assert_eq!(attachment_file_name(7, "..x"), "7.x");
}

#[test]
fn upload_answer_and_download_headers() {
    let j = uploaded_attachment_json(5, "a.txt", 12, None);
    assert_eq!(j.get("id").and_then(|v| v.as_str()), Some("5"));
    assert!(matches!(j.get("size"), Some(Json::Number(Some(12)))));
    assert!(matches!(j.get("content_type"), Some(Json::Null)));
    assert_eq!(j.get("url").and_then(|v| v.as_str()), Some("/api/v1/attachments/5"));
    assert_eq!(download_content_type(None), "application/octet-stream");
    assert_eq!(download_content_type(Some("image/png")), "image/png");
    assert_eq!(inline_disposition("a b.txt"), "inline; filename=\"a b.txt\"");
}

#[test]
fn only_authors_delete_linked_attachments() {
    assert!(check_attachment_delete(None, 1).is_ok());
    assert!(check_attachment_delete(Some(1), 1).is_ok());
    assert!(matches!(check_attachment_delete(Some(2), 1), Err(ApiError::Forbidden)));
}
