use base64::Engine;
use pastebin::markdown::StyleStore;
use pastebin::model::{AppError, MimeKind, Uuid};
use pastebin::render::{render_home_page, render_paste_page};
use pastebin::routes::file_name_from_header;
use pastebin::store::PasteStore;

fn create_state(max_pastes: usize, max_paste_size: usize, max_file_size: usize) -> (PasteStore, StyleStore) {
    (PasteStore::with_limits(max_pastes, max_paste_size, max_file_size), StyleStore::new())
}

fn status(r: Result<Uuid, AppError>) -> u16 {
    match r {
        Ok(_) => 200,
        Err(e) => e.status_code(),
    }
}

#[test]
fn test_get_home() {
    let (paste_store, _style_store) = create_state(5, 1_048_576, 20_971_520);
    assert!(render_home_page(paste_store.max_file_size).is_ok());
}

#[test]
fn test_post_paste_binary() {
    let (mut paste_store, _style_store) = create_state(5, 1_048_576, 20_971_520);
    let binary_content: Vec<u8> = vec![0u8, 159, 146, 150, 1, 2, 3, 255];
    let returned_id = paste_store
        .create_paste(binary_content.clone(), MimeKind::OctetStream, None)
        .expect("Expected 200 OK for binary paste creation");
    let stored = paste_store
        .pastes
        .iter()
        .find(|p| p.id == returned_id)
        .expect("returned id should match a paste actually stored in PasteStore");
    assert!(matches!(stored.mimetype, MimeKind::OctetStream), "paste created via /paste/binary should have mimetype OctetStream");
    assert_eq!(stored.content, binary_content, "stored content should exactly match the raw request body, including non-UTF8 bytes");
}

#[test]
fn test_post_paste_binary_empty() {
    let (mut paste_store, _style_store) = create_state(5, 1_048_576, 20_971_520);
    let r = paste_store.create_paste(Vec::new(), MimeKind::OctetStream, None);
    assert_eq!(status(r), 400, "Expected 400 Bad Request for empty binary content");
}

#[test]
fn test_post_paste_binary_too_large() {
    let (mut paste_store, _style_store) = create_state(5, 1_048_576, 500);
    let content = vec![7u8; 1000];
    let r = paste_store.create_paste(content, MimeKind::OctetStream, None);
    assert_eq!(status(r), 413, "Expected 413 Payload Too Large for binary content over max_file_size");
}

#[test]
fn test_get_non_existent_paste() {
    let (mut paste_store, _style_store) = create_state(5, 1_048_576, 20_971_520);
    let id = Uuid { value: uuid::Uuid::parse_str("123e4567-e89b-12d3-a456-426614174000").unwrap().as_u128() };
    let r = paste_store.record_view(id).map(|p| p.id);
    assert_eq!(status(r), 404, "Expected 404 for non-existent paste");
}

#[test]
fn test_payload_too_large() {
    let (mut paste_store, _style_store) = create_state(5, 1_048_576, 20_971_520);
    let large_content = "A".repeat(2_000_000);
    let r = paste_store.create_paste(large_content.into_bytes(), MimeKind::PlainText, None);
    assert_eq!(status(r), 413, "Expected 413 Payload Too Large for oversized content");
}

#[test]
fn test_octet_stream_allows_larger_payload_than_text() {
    let (mut paste_store, _style_store) = create_state(5, 1_048_576, 20_971_520);
    let large_content = "A".repeat(5_000_000);
    let r = paste_store.create_paste(large_content.into_bytes(), MimeKind::OctetStream, None);
    assert_eq!(status(r), 200, "Expected 200 OK - OctetStream should allow content larger than max_paste_size");
}

#[test]
fn test_text_still_rejects_payload_over_paste_size_limit() {
    let (mut paste_store, _style_store) = create_state(5, 1_048_576, 20_971_520);
    let large_content = "A".repeat(5_000_000);
    let r = paste_store.create_paste(large_content.into_bytes(), MimeKind::PlainText, None);
    assert_eq!(status(r), 413, "Expected 413 - PlainText should still be capped at max_paste_size, not max_file_size");
}

#[test]
fn test_empty_content() {
    let (mut paste_store, _style_store) = create_state(5, 1_048_576, 20_971_520);
    let r = paste_store.create_paste(Vec::new(), MimeKind::PlainText, None);
    assert_eq!(status(r), 400, "Expected 400 Bad Request for empty content");
}

#[test]
fn test_get_paste_plain_text() {
    let (mut paste_store, style_store) = create_state(5, 1_048_576, 20_971_520);
    let id = paste_store.create_paste(b"Hello, World!".to_vec(), MimeKind::PlainText, None).expect("Insert failed");
    let paste = paste_store.record_view(id).expect("Expected 200 OK for existing paste");
    let page = render_paste_page(paste, &style_store).expect("Expected 200 OK for existing paste");
    assert_eq!(page.content_type, "text/plain; charset=utf-8");
    let body_str = String::from_utf8(page.body).expect("response body should be valid UTF-8");
    assert!(body_str.contains("Hello, World!"), "Response body should contain the paste content");
}

#[test]
fn test_get_paste_html() {
    let (mut paste_store, style_store) = create_state(5, 1_048_576, 20_971_520);
    let id = paste_store.create_paste(b"<b>Hello, World!</b>".to_vec(), MimeKind::Html, None).expect("Insert failed");
    let paste = paste_store.record_view(id).expect("Expected 200 OK for existing paste");
    let page = render_paste_page(paste, &style_store).expect("Expected 200 OK for existing paste");
    assert_eq!(page.content_type, "text/html; charset=utf-8");
    let body_str = String::from_utf8(page.body).expect("response body should be valid UTF-8");
    assert!(body_str.contains("<b>Hello, World!</b>"), "Response body should contain the raw HTML content unchanged");
}

#[test]
fn test_get_paste_markdown() {
    let (mut paste_store, style_store) = create_state(5, 1_048_576, 20_971_520);
    let id = paste_store
        .create_paste(b"# Heading\n\nSome **bold** text.".to_vec(), MimeKind::Markdown, None)
        .expect("Insert failed");
    let paste = paste_store.record_view(id).expect("Expected 200 OK for existing paste");
    let page = render_paste_page(paste, &style_store).expect("Expected 200 OK for existing paste");
    assert_eq!(page.content_type, "text/html; charset=utf-8");
    let body_str = String::from_utf8(page.body).expect("response body should be valid UTF-8");
    assert!(body_str.contains("<h1>Heading</h1>"), "Markdown heading should be converted to HTML");
    assert!(body_str.contains("<strong>bold</strong>"), "Markdown bold text should be converted to HTML");
}

#[test]
fn test_post_paste_binary_sanitizes_file_name() {
    let (mut paste_store, _style_store) = create_state(5, 1_048_576, 20_971_520);
    let header = base64::engine::general_purpose::STANDARD.encode("evil\".txt");
    let id = paste_store
        .create_paste(vec![1, 2, 3, 4], MimeKind::OctetStream, file_name_from_header(&header))
        .unwrap();
    let paste = paste_store.get(id).unwrap();
    let page = pastebin::render::render_octet_stream_raw(paste);
    assert_eq!(
        page.content_disposition.unwrap(),
        "attachment; filename=\"evil.txt\"",
        "Double quotes in the file name should be stripped so the header stays well-formed"
    );
}
