//! Turning a paste into what a browser is sent: HTML escaping, file sizes,
//! download names, and the pages of each kind of paste.
use vstd::prelude::*;
use crate::markdown::{markdown_outcome, text_result, transform_md, StyleStore};
use crate::model::{is_image_file_name, is_image_file_name_spec, uuid_text, AppError, MimeKind, Paste, Uuid};
use crate::text::{chars_of, decimal, digit_spec, push_decimal, push_str, replace_str, replaced, string_of};
use vstd::utf8::encode_utf8;

verus! {

// ---------------------------------------------------------------------------
// HTML escaping.
// ---------------------------------------------------------------------------

/// What `html_escape` puts in place of the character `c`.
pub open spec fn escape_char(c: char) -> Seq<char> {
    if c == '&' {
        seq!['&', 'a', 'm', 'p', ';']
    } else if c == '<' {
        seq!['&', 'l', 't', ';']
    } else if c == '>' {
        seq!['&', 'g', 't', ';']
    } else if c == '"' {
        seq!['&', 'q', 'u', 'o', 't', ';']
    } else if c == '\'' {
        seq!['&', '#', '3', '9', ';']
    } else {
        seq![c]
    }
}

/// `s` with each character replaced by its escape.
pub open spec fn html_escaped(s: Seq<char>) -> Seq<char>
    decreases s.len(),
{
    if s.len() == 0 {
        Seq::empty()
    } else {
        html_escaped(s.drop_last()) + escape_char(s.last())
    }
}

fn push_escaped(out: &mut Vec<char>, c: char)
    ensures
        final(out)@ == old(out)@ + escape_char(c),
{
    if c == '&' {
        out.push('&');
        out.push('a');
        out.push('m');
        out.push('p');
        out.push(';');
    } else if c == '<' {
        out.push('&');
        out.push('l');
        out.push('t');
        out.push(';');
    } else if c == '>' {
        out.push('&');
        out.push('g');
        out.push('t');
        out.push(';');
    } else if c == '"' {
        out.push('&');
        out.push('q');
        out.push('u');
        out.push('o');
        out.push('t');
        out.push(';');
    } else if c == '\'' {
        out.push('&');
        out.push('#');
        out.push('3');
        out.push('9');
        out.push(';');
    } else {
        out.push(c);
    }
    assert(final(out)@ =~= old(out)@ + escape_char(c));
}

/// Escapes `&`, `<`, `>`, `"` and `'` so that `input` can stand in HTML as text.
pub fn html_escape(input: &str) -> (r: String)
    ensures
        r@ == html_escaped(input@),
{
    let v = chars_of(input);
    let mut out: Vec<char> = Vec::new();
    let mut i: usize = 0;
    while i < v.len()
        invariant
            v@ == input@,
            i <= v.len(),
            out@ == html_escaped(v@.take(i as int)),
        decreases v.len() - i,
    {
        assert(v@.take(i + 1).drop_last() =~= v@.take(i as int));
        push_escaped(&mut out, v[i]);
        i += 1;
    }
    assert(v@.take(v@.len() as int) =~= v@);
    string_of(out.as_slice())
}

/// Escaped text holds none of the characters that could open a tag or end an
/// attribute value: `<`, `>`, `"` and `'`.
pub proof fn law_escaped_text_is_inert(s: Seq<char>)
    ensures
        forall|i: int|
            0 <= i < html_escaped(s).len() ==> {
                let c = #[trigger] html_escaped(s)[i];
                c != '<' && c != '>' && c != '"' && c != '\''
            },
    decreases s.len(),
{
    if s.len() > 0 {
        law_escaped_text_is_inert(s.drop_last());
        let a = html_escaped(s.drop_last());
        let b = escape_char(s.last());
        assert forall|i: int| 0 <= i < html_escaped(s).len() implies {
            let c = #[trigger] html_escaped(s)[i];
            c != '<' && c != '>' && c != '"' && c != '\''
        } by {
            if i < a.len() {
                assert(html_escaped(s)[i] == a[i]);
            } else {
                assert(html_escaped(s)[i] == b[i - a.len()]);
            }
        }
    }
}

/// Reading escaped text back: each of the five entities that `html_escape`
/// writes stands for its character again, every other character for itself.
pub open spec fn html_unescaped(s: Seq<char>) -> Seq<char>
    decreases s.len(),
{
    if s.len() == 0 {
        Seq::empty()
    } else if s.len() >= 5 && s.take(5) == seq!['&', 'a', 'm', 'p', ';'] {
        seq!['&'] + html_unescaped(s.skip(5))
    } else if s.len() >= 4 && s.take(4) == seq!['&', 'l', 't', ';'] {
        seq!['<'] + html_unescaped(s.skip(4))
    } else if s.len() >= 4 && s.take(4) == seq!['&', 'g', 't', ';'] {
        seq!['>'] + html_unescaped(s.skip(4))
    } else if s.len() >= 6 && s.take(6) == seq!['&', 'q', 'u', 'o', 't', ';'] {
        seq!['"'] + html_unescaped(s.skip(6))
    } else if s.len() >= 5 && s.take(5) == seq!['&', '#', '3', '9', ';'] {
        seq!['\''] + html_unescaped(s.skip(5))
    } else {
        seq![s[0]] + html_unescaped(s.skip(1))
    }
}

proof fn lemma_escaped_concat(a: Seq<char>, b: Seq<char>)
    ensures
        html_escaped(a + b) == html_escaped(a) + html_escaped(b),
    decreases b.len(),
{
    if b.len() == 0 {
        assert(a + b =~= a);
        assert(html_escaped(a) + html_escaped(b) =~= html_escaped(a));
    } else {
        lemma_escaped_concat(a, b.drop_last());
        assert((a + b).drop_last() =~= a + b.drop_last());
        assert((a + b).last() == b.last());
        assert(html_escaped(a + b) =~= html_escaped(a) + html_escaped(b));
    }
}

proof fn lemma_unescape_one(c: char, rest: Seq<char>)
    ensures
        html_unescaped(escape_char(c) + rest) == seq![c] + html_unescaped(rest),
{
    let e = escape_char(c);
    let s = e + rest;
    assert(s.skip(e.len() as int) =~= rest);
    if c == '&' {
        assert(s.take(5) =~= seq!['&', 'a', 'm', 'p', ';']);
    } else if c == '<' {
        assert(s.take(4) =~= seq!['&', 'l', 't', ';']);
        assert(s.len() >= 5 ==> s.take(5)[1] == 'l');
    } else if c == '>' {
        assert(s.take(4) =~= seq!['&', 'g', 't', ';']);
        assert(s.len() >= 5 ==> s.take(5)[1] == 'g');
        assert(s.take(4)[1] == 'g');
    } else if c == '"' {
        assert(s.take(6) =~= seq!['&', 'q', 'u', 'o', 't', ';']);
        assert(s.take(5)[1] == 'q');
        assert(s.take(4)[1] == 'q');
    } else if c == '\'' {
        assert(s.take(5) =~= seq!['&', '#', '3', '9', ';']);
        assert(s.take(5)[1] == '#');
        assert(s.take(4)[1] == '#');
    } else {
        assert(s[0] == c);
        assert(s.len() >= 5 ==> s.take(5)[0] == c);
        assert(s.len() >= 4 ==> s.take(4)[0] == c);
        assert(s.len() >= 6 ==> s.take(6)[0] == c);
    }
}

/// Escaping loses nothing: reading the escaped text back gives the text again,
/// so a name shown escaped on a page still reads as the name.
pub proof fn law_unescape_after_escape(s: Seq<char>)
    ensures
        html_unescaped(html_escaped(s)) == s,
    decreases s.len(),
{
    if s.len() > 0 {
        let rest = s.skip(1);
        law_unescape_after_escape(rest);
        assert(s =~= seq![s[0]] + rest);
        lemma_escaped_concat(seq![s[0]], rest);
        let one = seq![s[0]];
        assert(one.drop_last() =~= Seq::<char>::empty());
        assert(html_escaped(one.drop_last()) == Seq::<char>::empty());
        assert(one.last() == s[0]);
        assert(html_escaped(one) =~= escape_char(s[0]));
        lemma_unescape_one(s[0], html_escaped(rest));
    }
}

// ---------------------------------------------------------------------------
// File sizes.
// ---------------------------------------------------------------------------

/// The gap between neighbouring `f64` values around `b` (for `0 <= b < 2^64`).
pub open spec fn f64_spacing(b: int) -> int {
    if b < 0x20_0000_0000_0000 { 1 }
    else if b < 0x40_0000_0000_0000 { 2 }
    else if b < 0x80_0000_0000_0000 { 4 }
    else if b < 0x100_0000_0000_0000 { 8 }
    else if b < 0x200_0000_0000_0000 { 16 }
    else if b < 0x400_0000_0000_0000 { 32 }
    else if b < 0x800_0000_0000_0000 { 64 }
    else if b < 0x1000_0000_0000_0000 { 128 }
    else if b < 0x2000_0000_0000_0000 { 256 }
    else if b < 0x4000_0000_0000_0000 { 512 }
    else if b < 0x8000_0000_0000_0000 { 1024 }
    else { 2048 }
}

/// `num / den` rounded to the nearest integer, ties to the even one.
pub open spec fn div_round_half_even(num: int, den: int) -> int {
    let q = num / den;
    let r = num % den;
    if 2 * r > den || (2 * r == den && q % 2 == 1) {
        q + 1
    } else {
        q
    }
}

/// The value of `b as f64`: `b` rounded to the nearest multiple of the `f64`
/// spacing there, ties to the even multiple.
pub open spec fn as_f64_value(b: int) -> int {
    div_round_half_even(b, f64_spacing(b)) * f64_spacing(b)
}

/// The text of a file size: whole bytes below 1 KiB, KiB with one decimal
/// below 1 MiB, MiB with two decimals above, rounded as `{:.1}` / `{:.2}` round
/// the `f64` quotient (to nearest, ties to even).
pub open spec fn file_size_text(bytes: int) -> Seq<char> {
    if bytes >= 1048576 {
        let n = div_round_half_even(as_f64_value(bytes) * 100, 1048576);
        decimal((n / 100) as nat) + seq!['.', digit_spec((n % 100) / 10), digit_spec(n % 10), ' ', 'M', 'B']
    } else if bytes >= 1024 {
        let n = div_round_half_even(bytes * 10, 1024);
        decimal((n / 10) as nat) + seq!['.', digit_spec(n % 10), ' ', 'K', 'B']
    } else {
        decimal(bytes as nat) + seq![' ', 'B']
    }
}

fn f64_spacing_of(b: u128) -> (u: u128)
    requires
        b < 0x1_0000_0000_0000_0000,
    ensures
        u == f64_spacing(b as int),
{
    if b < 0x20_0000_0000_0000 { 1 }
    else if b < 0x40_0000_0000_0000 { 2 }
    else if b < 0x80_0000_0000_0000 { 4 }
    else if b < 0x100_0000_0000_0000 { 8 }
    else if b < 0x200_0000_0000_0000 { 16 }
    else if b < 0x400_0000_0000_0000 { 32 }
    else if b < 0x800_0000_0000_0000 { 64 }
    else if b < 0x1000_0000_0000_0000 { 128 }
    else if b < 0x2000_0000_0000_0000 { 256 }
    else if b < 0x4000_0000_0000_0000 { 512 }
    else if b < 0x8000_0000_0000_0000 { 1024 }
    else { 2048 }
}

fn div_round(num: u128, den: u128) -> (n: u128)
    requires
        den > 0,
        num <= 0xffff_ffff_ffff_ffff_ffff_ffff,
        den <= 0xffff_ffff_ffff_ffff,
    ensures
        n == div_round_half_even(num as int, den as int),
{
    let q = num / den;
    let r = num % den;
    if 2 * r > den || (2 * r == den && q % 2 == 1) {
        q + 1
    } else {
        q
    }
}

/// A file size for people: `"512 B"`, `"1.5 KB"`, `"2.00 MB"`.
pub fn format_file_size(bytes: usize) -> (r: String)
    ensures
        r@ == file_size_text(bytes as int),
{
    let b = bytes as u128;
    let mut out: Vec<char> = Vec::new();
    if bytes >= 1048576 {
        let u = f64_spacing_of(b);
        assert(u <= 2048);
        let q1 = div_round(b, u);
        assert(b / u <= b) by (nonlinear_arith)
            requires
                u >= 1,
                b >= 0,
        {
        }
        assert(q1 <= b + 1);
        assert(q1 * u <= 0x1_0000_0000_0000_0000 * 2048) by (nonlinear_arith)
            requires
                q1 <= 0x1_0000_0000_0000_0000,
                u <= 2048,
        {
        }
        let f = q1 * u;
        let n = div_round(f * 100, 1048576);
        push_decimal(&mut out, n / 100);
        out.push('.');
        push_decimal(&mut out, (n % 100) / 10);
        push_decimal(&mut out, n % 10);
        push_str(&mut out, " MB");
    } else if bytes >= 1024 {
        let n = div_round(b * 10, 1024);
        push_decimal(&mut out, n / 10);
        out.push('.');
        push_decimal(&mut out, n % 10);
        push_str(&mut out, " KB");
    } else {
        push_decimal(&mut out, b);
        push_str(&mut out, " B");
    }
    proof {
        reveal_strlit(" MB");
        reveal_strlit(" KB");
        reveal_strlit(" B");
    }
    assert(out@ =~= file_size_text(bytes as int));
    string_of(out.as_slice())
}

// ---------------------------------------------------------------------------
// Download names and links.
// ---------------------------------------------------------------------------

/// The name a paste is downloaded under: its original file name, else `{uuid}.bin`.
pub open spec fn download_name(p: Paste) -> Seq<char> {
    match p.file_name {
        Some(n) => n@,
        None => uuid_text(p.id.value) + ".bin"@,
    }
}

/// The name a paste is downloaded under: its original file name, else `{uuid}.bin`.
pub fn download_file_name(paste: &Paste) -> (r: String)
    ensures
        r@ == download_name(*paste),
{
    match &paste.file_name {
        Some(n) => n.clone(),
        None => {
            let mut out = chars_of(paste.id.to_string().as_str());
            push_str(&mut out, ".bin");
            string_of(out.as_slice())
        },
    }
}

/// The `Content-Disposition` value that makes a browser save the paste.
pub open spec fn content_disposition_text(p: Paste) -> Seq<char> {
    "attachment; filename=\""@ + download_name(p) + "\""@
}

/// The `Content-Disposition` value that makes a browser save the paste under
/// its download name.
pub fn content_disposition(paste: &Paste) -> (r: String)
    ensures
        r@ == content_disposition_text(*paste),
{
    let mut out: Vec<char> = Vec::new();
    push_str(&mut out, "attachment; filename=\"");
    push_str(&mut out, download_file_name(paste).as_str());
    push_str(&mut out, "\"");
    string_of(out.as_slice())
}

/// Where the raw content of a paste is served.
pub open spec fn raw_url_text(id: Uuid) -> Seq<char> {
    "/paste/"@ + uuid_text(id.value) + "/raw"@
}

/// Where the raw content of a paste is served: `/paste/{uuid}/raw`.
pub fn raw_url(id: Uuid) -> (r: String)
    ensures
        r@ == raw_url_text(id),
{
    let mut out: Vec<char> = Vec::new();
    push_str(&mut out, "/paste/");
    push_str(&mut out, id.to_string().as_str());
    push_str(&mut out, "/raw");
    string_of(out.as_slice())
}

/// The UTF-8 encoding of `s`.
pub fn utf8_bytes(s: &String) -> (v: Vec<u8>)
    ensures
        v@ == encode_utf8(s@),
{
    vstd::slice::slice_to_vec(s.as_str().as_bytes())
}

// ---------------------------------------------------------------------------
// Pages.
// ---------------------------------------------------------------------------

/// The home page; `{{MAX_FILE_SIZE_MB}}` stands for the file size limit in MiB.
pub const HOME_TEMPLATE: &'static str = "<!DOCTYPE html>\n<html lang=\"en\">\n<head>\n<meta charset=\"utf-8\">\n<title>Pastebin</title>\n<style>\n:root { --bg: #1e1e2e; --fg: #cdd6f4; --accent: #89b4fa; }\nbody { background: var(--bg); color: var(--fg); font-family: sans-serif; max-width: 60rem; margin: 2rem auto; }\ntextarea { width: 100%; min-height: 20rem; }\n</style>\n</head>\n<body>\n<h1>Pastebin</h1>\n<form id=\"paste-form\" method=\"post\" action=\"/paste/form\">\n<select id=\"mimetype\" name=\"mimetype\">\n<option value=\"PlainText\">Plain Text</option>\n<option value=\"Html\">HTML</option>\n<option value=\"Markdown\">Markdown</option>\n<option value=\"OctetStream\">Octet Stream</option>\n</select>\n<textarea id=\"content\" name=\"content\"></textarea>\n<input id=\"file\" type=\"file\" hidden>\n<p>Files up to {{MAX_FILE_SIZE_MB}} MB.</p>\n<button type=\"submit\">Create paste</button>\n</form>\n<script>\nconst form = document.getElementById('paste-form');\nconst kind = document.getElementById('mimetype');\nconst text = document.getElementById('content');\nconst file = document.getElementById('file');\nkind.addEventListener('change', () => { const bin = kind.value === 'OctetStream'; text.hidden = bin; file.hidden = !bin; });\nform.addEventListener('submit', async (ev) => {\n  ev.preventDefault();\n  let res;\n  if (kind.value === 'OctetStream') {\n    const f = file.files[0];\n    if (!f) { return; }\n    const name = btoa(String.fromCharCode(...new TextEncoder().encode(f.name)));\n    res = await fetch('/paste/binary', { method: 'POST', headers: { 'x-file-name-b64': name }, body: f });\n  } else {\n    res = await fetch('/paste/json', { method: 'POST', headers: { 'content-type': 'application/json' }, body: JSON.stringify({ content: text.value, mimetype: kind.value }) });\n  }\n  if (res.ok) { const id = await res.json(); window.location = '/paste/' + id; } else { alert(await res.text()); }\n});\n</script>\n</body>\n</html>\n";

/// The page around rendered Markdown; `{{CONTENT}}` stands for the HTML.
pub const MARKDOWN_TEMPLATE: &'static str = "<!DOCTYPE html>\n<html lang=\"en\">\n<head>\n<meta charset=\"utf-8\">\n<title>Paste</title>\n<style>\n:root { --bg: #1e1e2e; --fg: #cdd6f4; --accent: #89b4fa; }\nbody { background: var(--bg); color: var(--fg); font-family: sans-serif; max-width: 60rem; margin: 2rem auto; }\na { color: var(--accent); }\n</style>\n</head>\n<body>\n<a class=\"back-link\" href=\"/\">&larr; Back to home</a>\n<article>\n{{CONTENT}}\n</article>\n</body>\n</html>\n";

/// The preview page of a file; `{{FILE_NAME}}`, `{{FILE_SIZE}}`, `{{RAW_URL}}`
/// and `{{PREVIEW}}` stand for the escaped name, the size, the download link
/// and the preview.
pub const OCTET_STREAM_TEMPLATE: &'static str = "<!DOCTYPE html>\n<html lang=\"en\">\n<head>\n<meta charset=\"utf-8\">\n<title>{{FILE_NAME}}</title>\n<style>\n:root { --bg: #1e1e2e; --fg: #cdd6f4; --accent: #89b4fa; }\nbody { background: var(--bg); color: var(--fg); font-family: sans-serif; max-width: 60rem; margin: 2rem auto; }\na { color: var(--accent); }\nimg { max-width: 100%; }\n</style>\n</head>\n<body>\n<a class=\"back-link\" href=\"/\">&larr; Back to home</a>\n<h1>{{FILE_NAME}}</h1>\n<p>Size: {{FILE_SIZE}}</p>\n<div class=\"preview\">{{PREVIEW}}</div>\n<a class=\"download\" href=\"{{RAW_URL}}\">Download</a>\n</body>\n</html>\n";

/// What is sent for a page: its content type, how to save it (if it is a
/// download), and its bytes.
pub struct RenderedPage {
    pub content_type: String,
    pub content_disposition: Option<String>,
    pub body: Vec<u8>,
}

pub open spec fn text_plain_type() -> Seq<char> {
    "text/plain; charset=utf-8"@
}

pub open spec fn text_html_type() -> Seq<char> {
    "text/html; charset=utf-8"@
}

pub open spec fn octet_stream_type() -> Seq<char> {
    "application/octet-stream"@
}

fn owned(s: &str) -> (r: String)
    ensures
        r@ == s@,
{
    let v = chars_of(s);
    string_of(v.as_slice())
}

/// The home page, telling how large a file may be (in whole MiB).
pub open spec fn home_page_text(max_file_size: int) -> Seq<char> {
    replaced(HOME_TEMPLATE@, "{{MAX_FILE_SIZE_MB}}"@, decimal((max_file_size / 1048576) as nat))
}

/// The home page, telling how large a file may be (in whole MiB).
pub fn render_home_page(max_file_size: usize) -> (r: Result<String, AppError>)
    ensures
        r matches Ok(page) && page@ == home_page_text(max_file_size as int),
{
    let mut mb: Vec<char> = Vec::new();
    push_decimal(&mut mb, (max_file_size / 1048576) as u128);
    proof {
        reveal_strlit("{{MAX_FILE_SIZE_MB}}");
    }
    let page = replace_str(HOME_TEMPLATE, "{{MAX_FILE_SIZE_MB}}", string_of(mb.as_slice()).as_str());
    Ok(page)
}

/// The preview shown on a file's page: the image itself for an image file
/// name, a notice otherwise.
pub open spec fn preview_text(file_name: Seq<char>, raw: Seq<char>) -> Seq<char> {
    if is_image_file_name_spec(file_name) {
        "<img src=\""@ + raw + "\" alt=\""@ + html_escaped(file_name) + "\">"@
    } else {
        "<p class=\"no-preview\">No preview available for this file type.</p>"@
    }
}

/// The page of a file paste: the escaped name, the size, the preview and the
/// download link put into the template, in that order.
pub open spec fn octet_stream_page_text(p: Paste) -> Seq<char> {
    let name = download_name(p);
    let raw = raw_url_text(p.id);
    let t1 = replaced(OCTET_STREAM_TEMPLATE@, "{{FILE_NAME}}"@, html_escaped(name));
    let t2 = replaced(t1, "{{FILE_SIZE}}"@, file_size_text(p.content.len() as int));
    let t3 = replaced(t2, "{{RAW_URL}}"@, raw);
    replaced(t3, "{{PREVIEW}}"@, preview_text(name, raw))
}

/// The page of a file paste: name, size, an image preview when the file name
/// says it is an image, and a link to download it.
pub fn render_octet_stream_page(paste: &Paste) -> (r: String)
    ensures
        r@ == octet_stream_page_text(*paste),
{
    let file_name = download_file_name(paste);
    let raw = raw_url(paste.id);
    let safe_file_name = html_escape(file_name.as_str());
    let preview = if is_image_file_name(file_name.as_str()) {
        let mut v: Vec<char> = Vec::new();
        push_str(&mut v, "<img src=\"");
        push_str(&mut v, raw.as_str());
        push_str(&mut v, "\" alt=\"");
        push_str(&mut v, safe_file_name.as_str());
        push_str(&mut v, "\">");
        string_of(v.as_slice())
    } else {
        owned("<p class=\"no-preview\">No preview available for this file type.</p>")
    };
    proof {
        reveal_strlit("{{FILE_NAME}}");
        reveal_strlit("{{FILE_SIZE}}");
        reveal_strlit("{{RAW_URL}}");
        reveal_strlit("{{PREVIEW}}");
    }
    let size = format_file_size(paste.content.len());
    let t1 = replace_str(OCTET_STREAM_TEMPLATE, "{{FILE_NAME}}", safe_file_name.as_str());
    let t2 = replace_str(t1.as_str(), "{{FILE_SIZE}}", size.as_str());
    let t3 = replace_str(t2.as_str(), "{{RAW_URL}}", raw.as_str());
    replace_str(t3.as_str(), "{{PREVIEW}}", preview.as_str())
}

/// The raw bytes of a file paste, sent as a download under its download name.
pub fn render_octet_stream_raw(paste: &Paste) -> (r: RenderedPage)
    ensures
        r.content_type@ == octet_stream_type(),
        r.content_disposition matches Some(d) && d@ == content_disposition_text(*paste),
        r.body@ == paste.content@,
{
    RenderedPage {
        content_type: owned("application/octet-stream"),
        content_disposition: Some(content_disposition(paste)),
        body: paste.content.clone(),
    }
}

/// What `render_paste_page` sends for a paste whose Markdown renders to `html`.
pub open spec fn markdown_page_text(html: Seq<char>) -> Seq<char> {
    replaced(MARKDOWN_TEMPLATE@, "{{CONTENT}}"@, html)
}

/// `page` is an HTML page with the body `body` (UTF-8 encoded) and no download header.
pub open spec fn html_page(page: RenderedPage, body: Seq<char>) -> bool {
    &&& page.content_type@ == text_html_type()
    &&& page.content_disposition is None
    &&& page.body@ == encode_utf8(body)
}

/// What `render_paste_page` may answer for the paste `p`: plain text and HTML
/// are sent as they are, a file gets its preview page, and Markdown is the
/// transform's HTML put into the page template, or the transform's error.
pub open spec fn paste_page(styles: StyleStore, p: Paste, r: Result<RenderedPage, AppError>) -> bool {
    match p.mimetype {
        MimeKind::PlainText => r matches Ok(page) && page.content_type@ == text_plain_type()
            && page.content_disposition is None && page.body@ == p.content@,
        MimeKind::Html => r matches Ok(page) && page.content_type@ == text_html_type()
            && page.content_disposition is None && page.body@ == p.content@,
        MimeKind::OctetStream => r matches Ok(page) && html_page(page, octet_stream_page_text(p)),
        MimeKind::Markdown => exists|t: Result<Seq<char>, AppError>|
            #[trigger] markdown_outcome(styles, p.content@, t) && match t {
                Ok(h) => r matches Ok(page) && html_page(page, markdown_page_text(h)),
                Err(e) => r == Err::<RenderedPage, AppError>(e),
            },
    }
}

/// The page of a paste, by its kind: plain text and HTML are sent as they are,
/// Markdown is rendered into the page template, and a file gets its preview page.
pub fn render_paste_page(paste: &Paste, style_store: &StyleStore) -> (r: Result<RenderedPage, AppError>)
    ensures
        paste_page(*style_store, *paste, r),
{
    match paste.mimetype {
        MimeKind::PlainText => Ok(RenderedPage {
            content_type: owned("text/plain; charset=utf-8"),
            content_disposition: None,
            body: paste.content.clone(),
        }),
        MimeKind::Html => Ok(RenderedPage {
            content_type: owned("text/html; charset=utf-8"),
            content_disposition: None,
            body: paste.content.clone(),
        }),
        MimeKind::Markdown => {
            let t = transform_md(paste, style_store);
            let ghost tv = text_result(t);
            let html = match t {
                Ok(h) => h,
                Err(e) => {
                    let r = Err(e);
                    assert(markdown_outcome(*style_store, paste.content@, tv));
                    return r;
                },
            };
            proof {
                reveal_strlit("{{CONTENT}}");
            }
            let page = replace_str(MARKDOWN_TEMPLATE, "{{CONTENT}}", html.as_str());
            let body = utf8_bytes(&page);
            assert(body@ == encode_utf8(markdown_page_text(html@)));
            assert(markdown_outcome(*style_store, paste.content@, tv));
            Ok(RenderedPage { content_type: owned("text/html; charset=utf-8"), content_disposition: None, body })
        },
        MimeKind::OctetStream => {
            let page = render_octet_stream_page(paste);
            Ok(RenderedPage {
                content_type: owned("text/html; charset=utf-8"),
                content_disposition: None,
                body: utf8_bytes(&page),
            })
        },
    }
}

} // verus!

verus! {

// ---------------------------------------------------------------------------
// Laws of the paste pages.
// ---------------------------------------------------------------------------

/// A Markdown paste's page is the page template with the transform's HTML put
/// into its `{{CONTENT}}` slot, sent as HTML.
pub proof fn law_markdown_page_is_the_template_around_the_html(
    styles: StyleStore,
    p: Paste,
    r: Result<RenderedPage, AppError>,
)
    requires
        p.mimetype == MimeKind::Markdown,
        paste_page(styles, p, r),
        r is Ok,
    ensures
        exists|h: Seq<char>|
            #[trigger] markdown_outcome(styles, p.content@, Ok(h)) && r->Ok_0.content_type@ == "text/html; charset=utf-8"@
                && r->Ok_0.body@ == encode_utf8(replaced(MARKDOWN_TEMPLATE@, "{{CONTENT}}"@, h)),
{
    let t = choose|t: Result<Seq<char>, AppError>|
        #[trigger] markdown_outcome(styles, p.content@, t) && match t {
            Ok(h) => r matches Ok(page) && html_page(page, markdown_page_text(h)),
            Err(e) => r == Err::<RenderedPage, AppError>(e),
        };
    let h = t->Ok_0;
    assert(markdown_outcome(styles, p.content@, Ok(h)));
}

/// A file paste's page is the preview template with the escaped download name,
/// the size of the paste's content (`file_size_text` of its byte length), the
/// download link and the preview filled in, sent as HTML.
pub proof fn law_file_page_shows_name_size_and_link(styles: StyleStore, p: Paste, r: Result<RenderedPage, AppError>)
    requires
        p.mimetype == MimeKind::OctetStream,
        paste_page(styles, p, r),
    ensures
        r matches Ok(page) && page.content_type@ == "text/html; charset=utf-8"@ && page.body@ == encode_utf8(
            replaced(
                replaced(
                    replaced(
                        replaced(OCTET_STREAM_TEMPLATE@, "{{FILE_NAME}}"@, html_escaped(download_name(p))),
                        "{{FILE_SIZE}}"@,
                        file_size_text(p.content@.len() as int),
                    ),
                    "{{RAW_URL}}"@,
                    raw_url_text(p.id),
                ),
                "{{PREVIEW}}"@,
                preview_text(download_name(p), raw_url_text(p.id)),
            ),
        ),
{
}

} // verus!
