//! The tools of the MCP interface: create a text paste, create a file paste
//! from base64, and view a paste. The MCP server that calls them lives outside
//! this crate.
use vstd::prelude::*;
use vstd::utf8::{decode_utf8, valid_utf8};
use crate::model::{
    empty_content_message, is_bad_request, is_random_v4, sanitize_file_name, sanitized_file_name, uuid_text, AppError,
    MimeKind, Paste, Uuid,
};
use crate::render::utf8_bytes;
use crate::store::{first_with_id, has_id, made_room, view_allowed, viewed, PasteStore};
use crate::text::{chars_of, decimal, push_decimal, push_str, string_of};
use base64::Engine;

verus! {

/// The arguments of the `create_paste` tool.
pub struct CreatePasteArgs {
    /// Paste content as plain text.
    pub content: String,
    /// `PlainText`, `Html` or `Markdown`; files go through `create_binary_paste`.
    pub mimetype: MimeKind,
}

/// The arguments of the `create_binary_paste` tool.
pub struct CreateBinaryPasteArgs {
    /// The content, base64 encoded (standard alphabet, padded).
    pub content_base64: String,
    /// The original file name, if known.
    pub file_name: Option<String>,
}

/// The arguments of the `get_paste` tool.
pub struct GetPasteArgs {
    /// The UUID of the paste to display.
    pub id: String,
}

/// A decoding result as plain values.
pub open spec fn bytes_result_view(r: Result<Vec<u8>, String>) -> Result<Seq<u8>, Seq<char>> {
    match r {
        Ok(v) => Ok(v@),
        Err(e) => Err(e@),
    }
}

/// A parsing result as plain values.
pub open spec fn bits_result_view(r: Result<u128, String>) -> Result<u128, Seq<char>> {
    match r {
        Ok(v) => Ok(v),
        Err(e) => Err(e@),
    }
}

/// What `base64::engine::general_purpose::STANDARD.decode` gives for the text
/// `s`: the bytes, or the `Display` text of its error.
pub uninterp spec fn base64_decode_result(s: Seq<char>) -> Result<Seq<u8>, Seq<char>>;

/// Trusted: `STANDARD.decode` of the text's bytes; its result, a function of
/// the text alone, is named `base64_decode_result`, the error by its
/// `Display` text.
#[verifier::external_body]
pub(crate) fn base64_decode(s: &str) -> (r: Result<Vec<u8>, String>)
    ensures
        bytes_result_view(r) == base64_decode_result(s@),
{
    base64::engine::general_purpose::STANDARD.decode(s).map_err(|e| e.to_string())
}

/// What `uuid::Uuid::parse_str` gives for the text `s`: the UUID's bits, or
/// the `Display` text of its error.
pub uninterp spec fn uuid_parse_result(s: Seq<char>) -> Result<u128, Seq<char>>;

/// Trusted: `uuid::Uuid::parse_str`, the UUID as its 128 bits; its result, a
/// function of the text alone, is named `uuid_parse_result`.
#[verifier::external_body]
fn parse_uuid(s: &str) -> (r: Result<u128, String>)
    ensures
        bits_result_view(r) == uuid_parse_result(s@),
{
    uuid::Uuid::parse_str(s).map(|u| u.as_u128()).map_err(|e| e.to_string())
}

/// A paste id from its text (any form that `uuid::Uuid::parse_str` accepts),
/// or the parser's message.
pub fn parse_paste_id(text: &str) -> (r: Result<Uuid, String>)
    ensures
        match uuid_parse_result(text@) {
            Ok(v) => r matches Ok(u) && u.value == v,
            Err(m) => r matches Err(e) && e@ == m,
        },
{
    match parse_uuid(text) {
        Ok(v) => Ok(Uuid { value: v }),
        Err(e) => Err(e),
    }
}

/// What `String::from_utf8_lossy` gives for `bytes`.
pub uninterp spec fn utf8_lossy(bytes: Seq<u8>) -> Seq<char>;

/// Trusted: `String::from_utf8_lossy`; its text, a function of the bytes
/// alone, is named `utf8_lossy`, and std documents that valid UTF-8 comes
/// through unchanged.
#[verifier::external_body]
pub(crate) fn lossy_text(bytes: &[u8]) -> (r: String)
    ensures
        r@ == utf8_lossy(bytes@),
        valid_utf8(bytes@) ==> r@ == decode_utf8(bytes@),
{
    String::from_utf8_lossy(bytes).into_owned()
}

fn text_with_prefix(prefix: &str, rest: &String) -> (r: String)
    ensures
        r@ == prefix@ + rest@,
{
    let mut v = chars_of(prefix);
    push_str(&mut v, rest.as_str());
    string_of(v.as_slice())
}

/// What `create_paste` answers for a store operation's result.
pub open spec fn tool_answer(r: Result<Uuid, AppError>) -> Result<Seq<char>, Seq<char>> {
    match r {
        Ok(id) => Ok(uuid_text(id.value)),
        Err(e) => Err(e.debug_spec()),
    }
}

fn answer(r: Result<Uuid, AppError>) -> (a: Result<String, String>)
    ensures
        a matches Ok(s) ==> tool_answer(r) == Ok::<Seq<char>, Seq<char>>(s@),
        a matches Err(s) ==> tool_answer(r) == Err::<Seq<char>, Seq<char>>(s@),
{
    match r {
        Ok(id) => Ok(id.to_string()),
        Err(e) => Err(e.debug_text()),
    }
}

/// The `create_paste` tool: stores the text as a paste of the given kind (with
/// the same checks as the HTTP interface) and answers its UUID, or the error as
/// `{:?}` writes it.
pub fn create_paste(store: &mut PasteStore, args: CreatePasteArgs) -> (a: Result<String, String>)
    requires
        old(store).current_tick < u64::MAX,
    ensures
        exists|r: Result<Uuid, AppError>|
            (a matches Ok(s) ==> tool_answer(r) == Ok::<Seq<char>, Seq<char>>(s@)) && (a matches Err(s)
                ==> tool_answer(r) == Err::<Seq<char>, Seq<char>>(s@)) && #[trigger] created(
                *old(store),
                *final(store),
                vstd::utf8::encode_utf8(args.content@),
                args.mimetype,
                None,
                r,
            ),
{
    let content = utf8_bytes(&args.content);
    let ghost bytes = content@;
    let r = store.create_paste(content, args.mimetype, None);
    assert(created(*old(store), *store, bytes, args.mimetype, None, r));
    answer(r)
}

/// What `PasteStore::create_paste` does with `content` of kind `mimetype`:
/// the same clauses as its contract, gathered for the tools' contracts.
pub open spec fn created(
    before: PasteStore,
    after: PasteStore,
    content: Seq<u8>,
    mimetype: MimeKind,
    file_name: Option<Seq<char>>,
    r: Result<Uuid, AppError>,
) -> bool {
    let limit = if mimetype == MimeKind::OctetStream { before.max_file_size } else { before.max_paste_size };
    let refused = content.len() > limit || content.len() == 0 || (before.pastes@.len() >= before.max_pastes
        && before.pastes@.len() == 0);
    &&& after.max_pastes == before.max_pastes
    &&& after.max_paste_size == before.max_paste_size
    &&& after.max_file_size == before.max_file_size
    &&& content.len() > limit ==> (r matches Err(AppError::PayloadTooLarge))
    &&& content.len() <= limit && content.len() == 0 ==> is_bad_request(r, empty_content_message())
    &&& content.len() <= limit && content.len() > 0 && (before.pastes@.len() >= before.max_pastes
        && before.pastes@.len() == 0) ==> (r matches Err(AppError::NotFound))
    &&& refused ==> after.pastes@ == before.pastes@ && after.current_tick == before.current_tick
    &&& !refused ==> (r matches Ok(id) && {
        let n = after.pastes@.len();
        let p = after.pastes@[n - 1];
        &&& n >= 1
        &&& after.current_tick == before.current_tick + 1
        &&& made_room(before.pastes@, after.pastes@.drop_last(), before.pastes@.len() >= before.max_pastes)
        &&& p.id == id
        &&& is_random_v4(id.value)
        &&& p.content@ == content
        &&& p.mimetype == mimetype
        &&& p.hits == 0
        &&& p.last_seen_tick == after.current_tick
        &&& p.name@ == Seq::<char>::empty()
        &&& (match file_name {
            Some(f) => p.file_name matches Some(g) && g@ == f,
            None => p.file_name is None,
        })
    })
}

/// The sanitized form of a file name, if one was given.
pub open spec fn sanitized_option(f: Option<String>) -> Option<Seq<char>> {
    match f {
        Some(f) => sanitized_file_name(f@),
        None => None,
    }
}

/// The `create_binary_paste` tool: decodes the base64 content and stores it
/// as a file paste, with the sanitized file name if one was given. Undecodable
/// content is answered with `Invalid base64 content: ` and the decoder's message,
/// and nothing is stored.
pub fn create_binary_paste(store: &mut PasteStore, args: CreateBinaryPasteArgs) -> (a: Result<String, String>)
    requires
        old(store).current_tick < u64::MAX,
    ensures
        base64_decode_result(args.content_base64@) matches Err(m) ==> (a matches Err(s) && s@
            == "Invalid base64 content: "@ + m) && *final(store) == *old(store),
        base64_decode_result(args.content_base64@) matches Ok(bytes) ==> exists|r: Result<Uuid, AppError>|
            (a matches Ok(s) ==> tool_answer(r) == Ok::<Seq<char>, Seq<char>>(s@)) && (a matches Err(s)
                ==> tool_answer(r) == Err::<Seq<char>, Seq<char>>(s@)) && #[trigger] created(
                *old(store),
                *final(store),
                bytes,
                MimeKind::OctetStream,
                sanitized_option(args.file_name),
                r,
            ),
{
    let content = match base64_decode(args.content_base64.as_str()) {
        Ok(c) => c,
        Err(e) => {
            return Err(text_with_prefix("Invalid base64 content: ", &e));
        },
    };
    assert(base64_decode_result(args.content_base64@) == Ok::<Seq<u8>, Seq<char>>(content@));
    let file_name = match &args.file_name {
        Some(f) => sanitize_file_name(f.as_str()),
        None => None,
    };
    let ghost bytes = content@;
    let ghost name = sanitized_option(args.file_name);
    assert(match file_name {
        Some(f) => name == Some(f@),
        None => name is None,
    });
    let r = store.create_paste(content, MimeKind::OctetStream, file_name);
    assert(created(*old(store), *store, bytes, MimeKind::OctetStream, name, r));
    assert(name == sanitized_option(args.file_name));
    assert(bytes == base64_decode_result(args.content_base64@)->Ok_0);
    answer(r)
}

/// How `get_paste` shows a paste's content: a notice with the size for a
/// file, the text (invalid UTF-8 replaced) otherwise.
pub open spec fn shown_content(p: Paste) -> Seq<char> {
    if p.mimetype == MimeKind::OctetStream {
        "binary content, "@ + decimal(p.content@.len()) + " bytes (cannot be displayed as text; use an HTTP client against GET /paste/{uuid} to download it)"@
    } else {
        utf8_lossy(p.content@)
    }
}

/// What `get_paste` answers for a paste: `[Kind] content`.
pub open spec fn shown_paste(p: Paste) -> Seq<char> {
    "["@ + p.mimetype.name_text() + "] "@ + shown_content(p)
}

/// What the `get_paste` tool does for the id text `id`: a malformed UUID is
/// answered with `Invalid UUID: ` and the parser's message, an unknown one with
/// `NotFound`, and then nothing changes; otherwise the first paste with that id
/// is viewed (one more hit, the next tick) and its kind and content are answered.
pub open spec fn get_paste_outcome(before: PasteStore, after: PasteStore, id: Seq<char>, a: Result<String, String>) -> bool {
    &&& after.max_pastes == before.max_pastes
    &&& after.max_paste_size == before.max_paste_size
    &&& after.max_file_size == before.max_file_size
    &&& match uuid_parse_result(id) {
        Err(m) => (a matches Err(s) && s@ == "Invalid UUID: "@ + m) && after == before,
        Ok(v) => if !has_id(before.pastes@, Uuid { value: v }) {
            (a matches Err(s) && s@ == "NotFound"@) && after.pastes@ == before.pastes@ && after.current_tick
                == before.current_tick
        } else {
            a matches Ok(s) && exists|k: int|
                {
                    &&& first_with_id(before.pastes@, Uuid { value: v }, k)
                    &&& after.current_tick == before.current_tick + 1
                    &&& viewed(before.pastes@, after.pastes@, k, after.current_tick)
                    &&& s@ == shown_paste(after.pastes@[k])
                }
        },
    }
}

/// The `get_paste` tool: views the paste with the given UUID, exactly as opening
/// it in a browser does (one more hit, the next tick), and answers its kind and
/// content. A malformed UUID is answered with `Invalid UUID: ` and the parser's
/// message, an unknown one with `NotFound`; then nothing changes.
pub fn get_paste(store: &mut PasteStore, args: GetPasteArgs) -> (a: Result<String, String>)
    requires
        uuid_parse_result(args.id@) matches Ok(v) ==> view_allowed(*old(store), Uuid { value: v }),
    ensures
        get_paste_outcome(*old(store), *final(store), args.id@, a),
{
    let id = match parse_paste_id(args.id.as_str()) {
        Ok(id) => id,
        Err(e) => {
            return Err(text_with_prefix("Invalid UUID: ", &e));
        },
    };
    let paste = match store.record_view(id) {
        Ok(p) => p,
        Err(e) => {
            let r = e.debug_text();
            proof {
                reveal_strlit("NotFound");
            }
            return Err(r);
        },
    };
    let content = match paste.mimetype {
        MimeKind::OctetStream => {
            let mut t = chars_of("binary content, ");
            push_decimal(&mut t, paste.content.len() as u128);
            push_str(
                &mut t,
                " bytes (cannot be displayed as text; use an HTTP client against GET /paste/{uuid} to download it)",
            );
            string_of(t.as_slice())
        },
        _ => lossy_text(paste.content.as_slice()),
    };
    Ok(paste_summary(paste.mimetype, content.as_str()))
}

/// The `get_paste` tool for any store: answers `None`, and changes nothing,
/// where viewing the paste would run a counter over (the tick, or the paste's
/// hits, at their largest value); otherwise does what `get_paste` does.
pub fn get_paste_if_countable(store: &mut PasteStore, args: GetPasteArgs) -> (a: Option<Result<String, String>>)
    ensures
        match uuid_parse_result(args.id@) {
            Ok(v) if !view_allowed(*old(store), Uuid { value: v }) => a is None && *final(store) == *old(store),
            _ => a matches Some(x) && get_paste_outcome(*old(store), *final(store), args.id@, x),
        },
{
    match parse_paste_id(args.id.as_str()) {
        Ok(id) => {
            if !store.can_view(id) {
                return None;
            }
        },
        Err(_) => {},
    }
    Some(get_paste(store, args))
}

/// How `get_paste` shows a paste of kind `kind` whose content reads as `text`:
/// `[Kind] text`.
pub fn paste_summary(kind: MimeKind, text: &str) -> (r: String)
    ensures
        r@ == "["@ + kind.name_text() + "] "@ + text@,
{
    let mut out = chars_of("[");
    push_str(&mut out, kind.debug_name().as_str());
    push_str(&mut out, "] ");
    push_str(&mut out, text);
    string_of(out.as_slice())
}

} // verus!
