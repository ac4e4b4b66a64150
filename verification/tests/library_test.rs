use base64::Engine;
use pastebin::markdown::{md_output_events, plan_code_blocks, transform_md, MdEventKind, MdOut, MdStep, StyleStore};
use pastebin::mcp::{create_binary_paste, create_paste, get_paste, get_paste_if_countable, parse_paste_id, CreateBinaryPasteArgs, CreatePasteArgs, GetPasteArgs};
use pastebin::model::{is_image_file_name, sanitize_file_name, AppError, MimeKind, Paste, Uuid};
use pastebin::render::{format_file_size, html_escape, render_home_page, render_paste_page};
use pastebin::routes::file_name_from_header;
use pastebin::store::PasteStore;
use pastebin::text::{is_blank, is_white_space, replace_str};

fn b64(s: &str) -> String {
    base64::engine::general_purpose::STANDARD.encode(s)
}

fn paste_with(hits: u32, tick: u64) -> Paste {
    Paste {
        id: Uuid::new_v4(),
        name: "p".to_string(),
        content: b"x".to_vec(),
        mimetype: MimeKind::PlainText,
        hits,
        last_seen_tick: tick,
        file_name: None,
    }
}

#[test]
fn file_size_matches_float_formatting() {
    const KB: f64 = 1024.0;
    const MB: f64 = KB * 1024.0;
    let reference = |bytes: usize| -> String {
        let bytes_f = bytes as f64;
        if bytes_f >= MB {
            format!("{:.2} MB", bytes_f / MB)
        } else if bytes_f >= KB {
            format!("{:.1} KB", bytes_f / KB)
        } else {
            format!("{} B", bytes)
        }
    };
    let mut samples: Vec<usize> = (0..5000).collect();
    samples.extend((0..4000).map(|i| 1_048_576 - 2000 + i));
    samples.extend((0..200).map(|i| i * 13_107 + 5_242));
    samples.extend([1280, 2304, 3328, 1_310_720, 1_315_635, 1_054_867, 20_971_520, 1_073_741_824]);
    samples.extend([(1usize << 53) - 1, 1usize << 53, (1usize << 53) + 1, (1usize << 53) + 3, usize::MAX, usize::MAX - 1024]);
    samples.extend((0..200).map(|i| (1usize << 60) + i * 977));
    for b in samples {
        assert_eq!(format_file_size(b), reference(b), "size {}", b);
    }
    assert_eq!(format_file_size(512), "512 B");
    assert_eq!(format_file_size(1536), "1.5 KB");
    assert_eq!(format_file_size(2_097_152), "2.00 MB");
}

#[test]
fn uuid_text_matches_uuid_crate() {
    for _ in 0..50 {
        let id = Uuid::new_v4();
        assert_eq!(id.to_string(), uuid::Uuid::from_u128(id.value).to_string());
    }
    let id = Uuid { value: 0x67e5_5044_10b1_426f_9247_bb68_0e5f_e0c8 };
    assert_eq!(id.to_string(), "67e55044-10b1-426f-9247-bb680e5fe0c8");
    assert_eq!(Uuid::nil().to_string(), "00000000-0000-0000-0000-000000000000");
}

#[test]
fn escaping_covers_the_five_characters() {
    assert_eq!(html_escape("a & b < c > d \" e ' f"), "a &amp; b &lt; c &gt; d &quot; e &#39; f");
    assert_eq!(html_escape("<script>alert(1)</script>.png"), "&lt;script&gt;alert(1)&lt;/script&gt;.png");
    assert_eq!(html_escape("plain ünïcode"), "plain ünïcode");
    let escaped = html_escape("<'\"&>");
    assert!(!escaped.contains('<') && !escaped.contains('>') && !escaped.contains('"') && !escaped.contains('\''));
}

#[test]
fn replace_behaves_like_str_replace() {
    let cases = [
        ("aaaa", "aa", "b"),
        ("{{X}}{{X}}", "{{X}}", "[{{X}}]"),
        ("abc", "zz", "q"),
        ("", "a", "b"),
        ("xaxbxa", "a", ""),
        ("ünï{{C}}ödé", "{{C}}", "<p>"),
    ];
    for (s, p, r) in cases {
        assert_eq!(replace_str(s, p, r), s.replace(p, r));
    }
}

#[test]
fn white_space_matches_std() {
    for n in 0u32..0x11_0000 {
        if let Some(c) = char::from_u32(n) {
            assert_eq!(is_white_space(c), c.is_whitespace(), "char {:x}", n);
        }
    }
    assert!(is_blank(" \t\n"));
    assert!(is_blank(""));
    assert!(!is_blank("  a "));
}

#[test]
fn file_names_are_sanitized() {
    assert_eq!(sanitize_file_name("evil\".txt"), Some("evil.txt".to_string()));
    assert_eq!(sanitize_file_name("a\u{0}b\u{7f}c\u{9f}.bin"), Some("abc.bin".to_string()));
    assert_eq!(sanitize_file_name("  photo.png  "), Some("photo.png".to_string()));
    assert_eq!(sanitize_file_name("\"\"\n"), None);
    assert_eq!(sanitize_file_name("   "), None);
    assert_eq!(sanitize_file_name("obrázek.png"), Some("obrázek.png".to_string()));
    let long: String = std::iter::repeat('x').take(300).collect();
    assert_eq!(sanitize_file_name(&long).map(|s| s.chars().count()), Some(255));
}

#[test]
fn image_file_names_by_extension() {
    for name in ["photo.png", "PHOTO.JPG", "a.b.jpeg", "x.gif", "x.WebP", "x.bmp", "x.svg", "favicon.ico"] {
        assert!(is_image_file_name(name), "{}", name);
    }
    for name in ["archive.zip", "png", "photo.png.txt", "photo.", "", ".pngx"] {
        assert!(!is_image_file_name(name), "{}", name);
    }
}

#[test]
fn header_file_name_is_decoded_and_sanitized() {
    assert_eq!(file_name_from_header(&b64("photo.png")), Some("photo.png".to_string()));
    assert_eq!(file_name_from_header(&b64("evil\".txt")), Some("evil.txt".to_string()));
    assert_eq!(file_name_from_header(&b64("obrázek.png")), Some("obrázek.png".to_string()));
    assert_eq!(file_name_from_header("!!not base64!!"), None);
    assert_eq!(file_name_from_header(&b64("\"")), None);
}

#[test]
fn new_paste_is_validated() {
    let ok = Paste::new("name".to_string(), b"hi".to_vec(), MimeKind::Html, 7, 10).expect("valid paste");
    assert_eq!((ok.hits, ok.last_seen_tick, ok.name.as_str()), (0, 7, "name"));
    assert!(matches!(Paste::new("n".to_string(), vec![1; 11], MimeKind::PlainText, 0, 10), Err(AppError::PayloadTooLarge)));
    match Paste::new("n".to_string(), Vec::new(), MimeKind::PlainText, 0, 10) {
        Err(AppError::BadRequest(m)) => assert_eq!(m, "Content cannot be empty"),
        other => panic!("unexpected {:?}", other.map(|p| p.hits)),
    }
    match Paste::new(" \t".to_string(), vec![1], MimeKind::PlainText, 0, 10) {
        Err(AppError::BadRequest(m)) => assert_eq!(m, "Name cannot be empty"),
        other => panic!("unexpected {:?}", other.map(|p| p.hits)),
    }
}

#[test]
fn hits_count_down_to_zero_only() {
    let mut p = paste_with(1, 0);
    p.decrement_hits();
    assert_eq!(p.hits, 0);
    p.decrement_hits();
    assert_eq!(p.hits, 0);
    p.update(9);
    assert_eq!((p.hits, p.last_seen_tick), (1, 9));
}

#[test]
fn text_and_file_limits_differ() {
    let mut store = PasteStore::with_limits(5, 10, 100);
    assert!(matches!(store.create_paste(vec![b'a'; 50], MimeKind::PlainText, None), Err(AppError::PayloadTooLarge)));
    assert!(store.create_paste(vec![b'a'; 50], MimeKind::OctetStream, None).is_ok());
    assert!(matches!(store.create_paste(vec![b'a'; 101], MimeKind::OctetStream, None), Err(AppError::PayloadTooLarge)));
    match store.create_paste(Vec::new(), MimeKind::OctetStream, None) {
        Err(e) => assert_eq!((e.status_code(), e.message()), (400, "Content cannot be empty".to_string())),
        Ok(_) => panic!("empty content accepted"),
    }
    assert_eq!(store.pastes.len(), 1);
    assert_eq!(store.current_tick, 1);
}

#[test]
fn created_paste_keeps_its_file_name_and_is_found() {
    let mut store = PasteStore::with_limits(5, 10, 100);
    let id = store.create_paste(vec![1, 2, 3], MimeKind::OctetStream, Some("photo.png".to_string())).unwrap();
    let p = store.get(id).expect("stored paste is found");
    assert_eq!(p.file_name.as_deref(), Some("photo.png"));
    assert_eq!((p.hits, p.last_seen_tick), (0, 1));
    assert!(p.name.is_empty());
}

#[test]
fn get_does_not_count_a_view() {
    let mut store = PasteStore::new(3);
    let id = store.insert("a".to_string(), b"x".to_vec(), MimeKind::PlainText).unwrap();
    let before = (store.pastes[0].hits, store.pastes[0].last_seen_tick, store.current_tick);
    store.get(id).unwrap();
    assert_eq!(before, (store.pastes[0].hits, store.pastes[0].last_seen_tick, store.current_tick));
    let viewed = store.record_view(id).unwrap();
    assert_eq!((viewed.hits, viewed.last_seen_tick), (1, 2));
    assert!(matches!(store.record_view(Uuid::nil()), Err(AppError::NotFound)));
    assert!(matches!(store.get(Uuid::nil()), Err(AppError::NotFound)));
}

#[test]
fn zero_capacity_refuses_inserts() {
    let mut store = PasteStore::new(0);
    assert!(matches!(store.insert("a".to_string(), b"x".to_vec(), MimeKind::PlainText), Err(AppError::NotFound)));
    assert_eq!(store.current_tick, 0);
}

#[test]
fn countdown_evicts_the_paste_that_survives_fewest_sweeps() {
    // Hits 3, 2, 5 with ticks 1, 2, 3: paste 1 survives one sweep, paste 0 two,
    // paste 2 four; paste 1 goes in the second sweep, after paste 0 was counted once more.
    let mut store = PasteStore::new(3);
    store.pastes = vec![paste_with(3, 1), paste_with(2, 2), paste_with(5, 3)];
    let ids: Vec<Uuid> = store.pastes.iter().map(|p| p.id).collect();
    assert_eq!(store.process_full_capacity().unwrap(), true);
    assert_eq!(store.pastes.len(), 2);
    assert_eq!((store.pastes[0].id, store.pastes[0].hits), (ids[0], 1));
    assert_eq!((store.pastes[1].id, store.pastes[1].hits), (ids[2], 4));
}

#[test]
fn same_tick_is_broken_by_position() {
    let store = PasteStore::new(3);
    let pastes = vec![paste_with(0, 4), paste_with(0, 1), paste_with(0, 1)];
    assert_eq!(store.find_last_seen_paste(&pastes, &vec![]), Some(2));
    assert_eq!(store.find_last_seen_paste(&pastes, &vec![2]), Some(1));
    assert_eq!(store.find_last_seen_paste(&pastes, &vec![2, 1]), Some(0));
    assert_eq!(store.find_last_seen_paste(&pastes, &vec![0, 1, 2]), None);
    assert_eq!(store.find_last_seen_paste(&Vec::new(), &vec![]), Some(0));
}

#[test]
fn fresh_paste_is_not_the_first_candidate() {
    let mut store = PasteStore::new(3);
    for i in 0..3 {
        store.insert(format!("{}", i), b"x".to_vec(), MimeKind::PlainText).unwrap();
    }
    let newest = store.pastes.len() - 1;
    assert_ne!(store.find_last_seen_paste(&store.pastes, &vec![]), Some(newest));
}

#[test]
fn capacity_is_never_exceeded() {
    let mut store = PasteStore::new(4);
    for i in 0..40 {
        store.insert(format!("{}", i), b"x".to_vec(), MimeKind::PlainText).unwrap();
        if i % 3 == 0 {
            let id = store.pastes[0].id;
            store.record_view(id).unwrap();
        }
        assert!(store.pastes.len() <= 4);
    }
    assert_eq!(store.current_tick, 40 + 14);
}

#[test]
fn errors_answer_with_status_and_text() {
    assert_eq!((AppError::NotFound.status_code(), AppError::NotFound.message()), (404, "Paste not found".to_string()));
    assert_eq!(AppError::PayloadTooLarge.status_code(), 413);
    assert_eq!(AppError::MermaidRenderError("x".to_string()).message(), "Mermaid render failed: x");
    assert_eq!(AppError::FullCapacityEvictionFailed.message(), "Full capacity eviction failed");
    for e in [
        AppError::NotFound,
        AppError::PayloadTooLarge,
        AppError::BadRequest("Content \"cannot\" be empty\n".to_string()),
        AppError::MarkdownParserFailed,
        AppError::MermaidRenderError("boom".to_string()),
        AppError::FullCapacityEvictionFailed,
    ] {
        assert_eq!(e.debug_text(), format!("{:?}", e));
    }
    for m in [MimeKind::PlainText, MimeKind::Html, MimeKind::Markdown, MimeKind::OctetStream] {
        assert_eq!(m.debug_name(), format!("{:?}", m));
    }
}

#[test]
fn home_page_tells_the_file_limit() {
    let page = render_home_page(20_971_520).unwrap();
    assert!(page.contains("Files up to 20 MB."));
    assert!(!page.contains("{{MAX_FILE_SIZE_MB}}"));
}

#[test]
fn html_paste_is_sent_unchanged() {
    let mut p = paste_with(0, 0);
    p.mimetype = MimeKind::Html;
    p.content = b"<b>Hello, World!</b>".to_vec();
    let page = render_paste_page(&p, &StyleStore::new()).unwrap();
    assert_eq!(page.content_type, "text/html; charset=utf-8");
    assert_eq!(page.body, b"<b>Hello, World!</b>".to_vec());
}

#[test]
fn markdown_page_wraps_rendered_html() {
    let mut p = paste_with(0, 0);
    p.mimetype = MimeKind::Markdown;
    p.content = b"# Heading\n\nSome **bold** text.".to_vec();
    let page = render_paste_page(&p, &StyleStore::new()).unwrap();
    let body = String::from_utf8(page.body).unwrap();
    assert!(body.contains("<h1>Heading</h1>") && body.contains("<strong>bold</strong>"));
    assert!(!body.contains("{{CONTENT}}"));
}

#[test]
fn markdown_that_is_not_utf8_is_refused() {
    let mut p = paste_with(0, 0);
    p.mimetype = MimeKind::Markdown;
    p.content = vec![0xff, 0xfe];
    match transform_md(&p, &StyleStore::new()) {
        Err(AppError::BadRequest(m)) => assert_eq!(m, String::from_utf8(vec![0xff, 0xfe]).unwrap_err().to_string()),
        _ => panic!("invalid UTF-8 accepted"),
    }
}

#[test]
fn mermaid_block_is_wrapped_in_a_div() {
    let mut p = paste_with(0, 0);
    p.mimetype = MimeKind::Markdown;
    p.content = b"before\n\n```mermaid\ngraph TD;\nA-->B;\n```\n\nafter".to_vec();
    let html = transform_md(&p, &StyleStore::new()).unwrap();
    assert!(html.contains("<div class=\"mermaid-diagram\"><svg"));
    assert!(html.contains("<p>before</p>") && html.contains("<p>after</p>"));
}

#[test]
fn code_block_plan() {
    let kinds = vec![
        MdEventKind::Other,
        MdEventKind::FencedCodeStart("rust".to_string()),
        MdEventKind::Text("let a = 1;\n".to_string()),
        MdEventKind::Text("let b = 2;\n".to_string()),
        MdEventKind::CodeBlockEnd,
        MdEventKind::Text("after".to_string()),
        MdEventKind::FencedCodeStart("mermaid".to_string()),
        MdEventKind::Text("graph TD;".to_string()),
        MdEventKind::CodeBlockEnd,
        MdEventKind::CodeBlockEnd,
    ];
    let steps = plan_code_blocks(&kinds);
    assert_eq!(steps.len(), kinds.len());
    assert!(matches!(steps[0], MdStep::Keep));
    assert!(matches!(steps[1], MdStep::Drop));
    assert!(matches!(steps[2], MdStep::Drop));
    match &steps[4] {
        MdStep::Highlight(lang, code) => assert_eq!((lang.as_str(), code.as_str()), ("rust", "let a = 1;\nlet b = 2;\n")),
        _ => panic!("expected a highlighted block"),
    }
    assert!(matches!(steps[5], MdStep::Keep));
    match &steps[8] {
        MdStep::Mermaid(code) => assert_eq!(code, "graph TD;"),
        _ => panic!("expected a diagram"),
    }
    assert!(matches!(steps[9], MdStep::Drop));
}

#[test]
fn mcp_tools_create_and_show_pastes() {
    let mut store = PasteStore::with_limits(5, 100, 1000);
    let id = create_paste(&mut store, CreatePasteArgs { content: "Hello".to_string(), mimetype: MimeKind::Markdown }).unwrap();
    let shown = get_paste(&mut store, GetPasteArgs { id: id.clone() }).unwrap();
    assert_eq!(shown, "[Markdown] Hello");
    assert_eq!(store.pastes[0].hits, 1);

    let bin = create_binary_paste(
        &mut store,
        CreateBinaryPasteArgs { content_base64: base64::engine::general_purpose::STANDARD.encode([0u8, 159, 255]), file_name: Some("a\".bin".to_string()) },
    )
    .unwrap();
    assert_eq!(store.pastes[1].file_name.as_deref(), Some("a.bin"));
    assert_eq!(store.pastes[1].content, vec![0u8, 159, 255]);
    let shown = get_paste(&mut store, GetPasteArgs { id: bin }).unwrap();
    assert_eq!(
        shown,
        "[OctetStream] binary content, 3 bytes (cannot be displayed as text; use an HTTP client against GET /paste/{uuid} to download it)"
    );

    let empty = create_paste(&mut store, CreatePasteArgs { content: String::new(), mimetype: MimeKind::PlainText });
    assert_eq!(empty, Err("BadRequest(\"Content cannot be empty\")".to_string()));

    let bad = create_binary_paste(&mut store, CreateBinaryPasteArgs { content_base64: "%%%".to_string(), file_name: None });
    assert!(bad.unwrap_err().starts_with("Invalid base64 content: "));

    let bad = get_paste(&mut store, GetPasteArgs { id: "nope".to_string() });
    assert!(bad.unwrap_err().starts_with("Invalid UUID: "));

    let missing = get_paste(&mut store, GetPasteArgs { id: Uuid::nil().to_string() });
    assert_eq!(missing, Err("NotFound".to_string()));
}

#[test]
fn escaped_text_reads_back() {
    let unescape = |s: &str| {
        s.replace("&lt;", "<").replace("&gt;", ">").replace("&quot;", "\"").replace("&#39;", "'").replace("&amp;", "&")
    };
    for s in ["a & b", "&amp;", "<script>alert('x')</script>", "\"quoted\" & 'single'", "&lt;literal&gt;"] {
        assert_eq!(unescape(&html_escape(s)), s);
    }
}

#[test]
fn paste_summary_names_the_kind() {
    assert_eq!(pastebin::mcp::paste_summary(MimeKind::Html, "<b>x</b>"), "[Html] <b>x</b>");
    assert_eq!(pastebin::mcp::paste_summary(MimeKind::PlainText, ""), "[PlainText] ");
}

#[test]
fn new_ids_are_random_version_4() {
    for _ in 0..50 {
        let text: Vec<char> = Uuid::new_v4().to_string().chars().collect();
        assert_eq!(text.len(), 36);
        assert_eq!(text[14], '4');
        assert!(matches!(text[19], '8' | '9' | 'a' | 'b'));
    }
}

#[test]
fn highlighted_block_is_a_pre_element() {
    let style_store = StyleStore::new();
    let paste = Paste::new("x".to_string(), b"```rust\nfn main() {}\n```\n".to_vec(), MimeKind::Markdown, 0, 1024).unwrap();
    let html = transform_md(&paste, &style_store).expect("highlighting failed");
    assert!(html.starts_with("<pre style=\"background-color:#"));
    assert!(html.trim_end().ends_with("</pre>"));
}

#[test]
fn output_events_keep_drop_and_replace() {
    let steps = vec![
        MdStep::Keep,
        MdStep::Drop,
        MdStep::Highlight("rust".to_string(), "x".to_string()),
        MdStep::Keep,
        MdStep::Mermaid("graph TD;".to_string()),
    ];
    let blocks = vec!["<pre>x</pre>".to_string(), "<div>d</div>".to_string()];
    let out = md_output_events(&steps, &blocks);
    assert_eq!(out.len(), 4);
    assert!(matches!(out[0], MdOut::Event(0)));
    assert!(matches!(&out[1], MdOut::Html(h) if h == "<pre>x</pre>"));
    assert!(matches!(out[2], MdOut::Event(3)));
    assert!(matches!(&out[3], MdOut::Html(h) if h == "<div>d</div>"));
}

#[test]
fn parse_paste_id_reads_the_hyphenated_form() {
    let id = parse_paste_id("67e55044-10b1-426f-9247-bb680e5fe0c8").unwrap();
    assert_eq!(id.value, 0x67e5504410b1426f9247bb680e5fe0c8);
    assert!(parse_paste_id("not-a-uuid").is_err());
}

#[test]
fn view_page_counts_the_view_and_renders() {
    let mut store = PasteStore::new(5);
    let styles = StyleStore::new();
    let id = store.insert("n".to_string(), b"hello".to_vec(), MimeKind::PlainText).unwrap();
    let page = store.view_page(id, &styles).unwrap();
    assert_eq!(page.body, b"hello".to_vec());
    assert_eq!(page.content_type, "text/plain; charset=utf-8");
    assert_eq!(store.pastes[0].hits, 1);
    assert!(matches!(store.view_page(Uuid::nil(), &styles), Err(AppError::NotFound)));
    assert_eq!(store.current_tick, 2);
}

#[test]
fn get_paste_refuses_only_an_exhausted_counter() {
    let mut store = PasteStore::new(5);
    let id = store.insert("n".to_string(), b"hi".to_vec(), MimeKind::PlainText).unwrap();
    let other = store.insert("m".to_string(), b"ho".to_vec(), MimeKind::PlainText).unwrap();
    store.pastes[1].hits = u32::MAX;
    assert!(!store.can_view(other));
    assert!(store.can_view(id));
    let a = get_paste_if_countable(&mut store, GetPasteArgs { id: id.to_string() });
    assert_eq!(a, Some(Ok("[PlainText] hi".to_string())));
    let b = get_paste_if_countable(&mut store, GetPasteArgs { id: other.to_string() });
    assert_eq!(b, None);
    let c = get_paste_if_countable(&mut store, GetPasteArgs { id: "nope".to_string() });
    assert!(matches!(c, Some(Err(s)) if s.starts_with("Invalid UUID: ")));
}
