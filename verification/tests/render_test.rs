use pastebin::markdown::{transform_md, StyleStore};
use pastebin::model::{MimeKind, Paste, Uuid};
use pastebin::render::{render_octet_stream_raw, render_paste_page};

fn md_paste(content: &[u8]) -> Paste {
    Paste {
        id: Uuid::new_v4(),
        name: String::new(),
        content: content.to_vec(),
        mimetype: MimeKind::Markdown,
        hits: 0,
        last_seen_tick: 0,
        file_name: None,
    }
}

#[test]
fn md_to_html() {
    let paste = md_paste(b"# Heading\n\nThis is **bold** and *italic* text.\n\n- item one\n- item two\n");

    let style_store = StyleStore::new();
    let html = transform_md(&paste, &style_store).expect("Markdown transform failed");

    assert!(html.contains("<h1>Heading</h1>"), "Heading not converted to <h1>");
    assert!(html.contains("<strong>bold</strong>"), "Bold text not converted to <strong>");
    assert!(html.contains("<em>italic</em>"), "Italic text not converted to <em>");
    assert!(html.contains("<li>item one</li>") && html.contains("<li>item two</li>"), "List items not converted to <li>");
}

#[test]
fn highlight_code_block() {
    let paste = md_paste(b"```rust\nlet a = \"hello world\";\n```");

    let style_store = StyleStore::new();
    let html = transform_md(&paste, &style_store).expect("Markdown transform failed");

    assert!(html.contains("<pre") && html.contains("</pre>"), "Code block not found in HTML output");
    assert!(html.contains(r#"style="color:"#), "Syntax highlighting not found in HTML output");
}

#[test]
fn mermaid() {
    let paste = md_paste(b"```mermaid\ngraph TD;\nA-->B;\nB-->C;\nC-->A;\n```");

    let style_store = StyleStore::new();
    let html = transform_md(&paste, &style_store).expect("Markdown transform failed");

    assert!(html.contains("<svg ") && html.contains("</svg>"), "Mermaid SVG not found in HTML output");
}

#[test]
fn plain_text() {
    let paste = Paste {
        id: Uuid::new_v4(),
        name: String::new(),
        content: b"Hello, World!".to_vec(),
        mimetype: MimeKind::PlainText,
        hits: 0,
        last_seen_tick: 0,
        file_name: None,
    };

    let style_store = StyleStore::new();
    let page = render_paste_page(&paste, &style_store).expect("render_paste_page failed");

    assert_eq!(page.content_type, "text/plain; charset=utf-8");
    assert_eq!(page.body.as_slice(), paste.content.as_slice(), "PlainText body should pass through unchanged");
}

#[test]
fn octet_stream_raw() {
    let paste = Paste {
        id: Uuid::new_v4(),
        name: String::new(),
        content: vec![0u8, 159, 146, 150, 1, 2, 3, 255],
        mimetype: MimeKind::OctetStream,
        hits: 0,
        last_seen_tick: 0,
        file_name: None,
    };

    let page = render_octet_stream_raw(&paste);

    assert_eq!(page.content_type, "application/octet-stream");

    let content_disposition = page.content_disposition.clone().expect("missing Content-Disposition");
    assert!(content_disposition.contains("attachment"), "Content-Disposition should mark the response as an attachment");
    assert!(content_disposition.contains(&paste.id.to_string()), "Content-Disposition filename should contain the paste id");

    assert_eq!(page.body.as_slice(), paste.content.as_slice(), "OctetStream body should pass through unchanged");
}

#[test]
fn octet_stream_raw_with_file_name() {
    let paste = Paste {
        id: Uuid::new_v4(),
        name: String::new(),
        content: vec![1, 2, 3, 4],
        mimetype: MimeKind::OctetStream,
        hits: 0,
        last_seen_tick: 0,
        file_name: Some("photo.png".to_string()),
    };

    let page = render_octet_stream_raw(&paste);

    let content_disposition = page.content_disposition.expect("missing Content-Disposition");
    assert_eq!(
        content_disposition, "attachment; filename=\"photo.png\"",
        "Content-Disposition should use the original file name when present"
    );
}

#[test]
fn octet_stream_page_shows_image_preview() {
    let paste = Paste {
        id: Uuid::new_v4(),
        name: String::new(),
        content: vec![1, 2, 3, 4],
        mimetype: MimeKind::OctetStream,
        hits: 0,
        last_seen_tick: 0,
        file_name: Some("photo.png".to_string()),
    };

    let style_store = StyleStore::new();
    let page = render_paste_page(&paste, &style_store).expect("render_paste_page failed");

    assert_eq!(page.content_type, "text/html; charset=utf-8", "OctetStream page should be HTML, not the raw file");
    assert!(page.content_disposition.is_none(), "the preview page itself should not force a download");

    let body_str = String::from_utf8(page.body).unwrap();

    let raw_url = format!("/paste/{}/raw", paste.id.to_string());
    assert!(body_str.contains(&format!(r#"<img src="{}""#, raw_url)), "should embed an <img> pointing at the raw download URL");
    assert!(body_str.contains("photo.png"), "should show the file name");
    assert!(body_str.contains(&format!(r#"href="{}""#, raw_url)), "the download button should link to the raw URL");
}

#[test]
fn octet_stream_page_falls_back_to_no_preview() {
    let paste = Paste {
        id: Uuid::new_v4(),
        name: String::new(),
        content: vec![1, 2, 3, 4],
        mimetype: MimeKind::OctetStream,
        hits: 0,
        last_seen_tick: 0,
        file_name: Some("archive.zip".to_string()),
    };

    let style_store = StyleStore::new();
    let page = render_paste_page(&paste, &style_store).expect("render_paste_page failed");

    let body_str = String::from_utf8(page.body).unwrap();

    assert!(!body_str.contains("<img"), "non-image files should not get an <img> preview");
    assert!(body_str.contains("No preview available"), "should show the no-preview fallback message");
}

#[test]
fn octet_stream_page_escapes_file_name() {
    let paste = Paste {
        id: Uuid::new_v4(),
        name: String::new(),
        content: vec![1, 2, 3, 4],
        mimetype: MimeKind::OctetStream,
        hits: 0,
        last_seen_tick: 0,
        file_name: Some("<script>alert(1)</script>.png".to_string()),
    };

    let style_store = StyleStore::new();
    let page = render_paste_page(&paste, &style_store).expect("render_paste_page failed");

    let body_str = String::from_utf8(page.body).unwrap();

    assert!(!body_str.contains("<script>"), "file name must be HTML-escaped, not injected raw into the page");
    assert!(body_str.contains("&lt;script&gt;"), "escaped file name should still be visible as text");
}
