//! What the HTTP interface needs besides the store and the renderer: the body
//! of the paste-creating requests and the file name sent with an upload.
use vstd::prelude::*;
use crate::mcp::{base64_decode, base64_decode_result, lossy_text, utf8_lossy};
use crate::model::{sanitize_file_name, sanitized_file_name, MimeKind};

verus! {

/// The body of `POST /paste/json` and `POST /paste/form`.
pub struct CreatePasteDto {
    pub content: String,
    pub mimetype: MimeKind,
}

/// The file name that an upload's `X-File-Name-B64` header value stands for.
pub open spec fn header_file_name(value: Seq<char>) -> Option<Seq<char>> {
    match base64_decode_result(value) {
        Ok(bytes) => sanitized_file_name(utf8_lossy(bytes)),
        Err(_) => None,
    }
}

/// The file name sent with an upload, base64 encoded in the `X-File-Name-B64`
/// header: decoded, read as UTF-8 (invalid sequences replaced), and sanitized.
/// A value that is not base64, or a name with nothing usable left, gives `None`.
pub fn file_name_from_header(value: &str) -> (r: Option<String>)
    ensures
        r matches Some(s) ==> header_file_name(value@) == Some(s@),
        r is None ==> header_file_name(value@) is None,
{
    match base64_decode(value) {
        Ok(bytes) => {
            let name = lossy_text(bytes.as_slice());
            sanitize_file_name(name.as_str())
        },
        Err(_) => None,
    }
}

} // verus!
