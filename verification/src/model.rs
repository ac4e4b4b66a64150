//! The domain model: paste identifiers, pastes, content kinds and errors.
use vstd::prelude::*;
use crate::text::{blank_spec, chars_of, digit_spec, is_blank, is_white_space, is_white_space_spec, push_str, string_of};

verus! {

/// A paste identifier: the 128 bits of an RFC 4122 UUID, most significant first.
#[derive(Clone, Copy, Debug, PartialEq, Eq, Structural)]
pub struct Uuid {
    pub value: u128,
}

/// Trusted: `uuid::Uuid::new_v4` draws a random version-4 UUID. Its source
/// masks the random bits so that the version digit is 4 and the variant bits
/// are `10` (RFC 4122); that is all that is stated, the other bits come from
/// the OS's random source.
#[verifier::external_body]
fn random_uuid_bits() -> (v: u128)
    ensures
        is_random_v4(v),
{
    uuid::Uuid::new_v4().as_u128()
}

/// The lowercase hexadecimal digit for `d` (`0 <= d < 16`).
pub open spec fn hex_digit(d: int) -> char {
    if d < 10 {
        digit_spec(d)
    } else if d == 10 {
        'a'
    } else if d == 11 {
        'b'
    } else if d == 12 {
        'c'
    } else if d == 13 {
        'd'
    } else if d == 14 {
        'e'
    } else {
        'f'
    }
}

/// The `k`-th hexadecimal digit of `v`, counted from the most significant (`0 <= k < 32`).
pub open spec fn nibble(v: u128, k: int) -> int {
    ((v >> ((124 - 4 * k) as u128)) & 0xf) as int
}

/// A random UUID as RFC 4122 lays it out: version digit (the 13th hexadecimal
/// digit) 4, and the variant digit (the 17th) one of `8`, `9`, `a`, `b`.
pub open spec fn is_random_v4(v: u128) -> bool {
    &&& nibble(v, 12) == 4
    &&& 8 <= nibble(v, 16) <= 11
}

/// Which hexadecimal digit stands at position `i` of the hyphenated form.
pub open spec fn digit_at(i: int) -> int {
    if i < 8 {
        i
    } else if i < 13 {
        i - 1
    } else if i < 18 {
        i - 2
    } else if i < 23 {
        i - 3
    } else {
        i - 4
    }
}

/// The hyphenated form of a UUID: 32 lowercase hexadecimal digits, most
/// significant first, grouped 8-4-4-4-12.
pub open spec fn uuid_text(v: u128) -> Seq<char> {
    Seq::new(
        36,
        |i: int|
            if i == 8 || i == 13 || i == 18 || i == 23 {
                '-'
            } else {
                hex_digit(nibble(v, digit_at(i)))
            },
    )
}

/// Trusted: `uuid::Uuid::from_u128` takes the bits most significant first,
/// and the `Display` of `uuid::fmt::Hyphenated` writes the lowercase 8-4-4-4-12
/// hexadecimal form, as the crate documents; the result is that text.
#[verifier::external_body]
fn hyphenated_text(v: u128) -> (s: String)
    ensures
        s@ == uuid_text(v),
{
    uuid::Uuid::from_u128(v).hyphenated().to_string()
}

impl Uuid {
    /// The hyphenated lowercase form, e.g. `67e55044-10b1-426f-9247-bb680e5fe0c8`.
    pub fn to_string(&self) -> (s: String)
        ensures
            s@ == uuid_text(self.value),
    {
        hyphenated_text(self.value)
    }

    /// The all-zero UUID.
    pub fn nil() -> (u: Uuid)
        ensures
            u.value == 0,
    {
        Uuid { value: 0 }
    }

    /// A fresh random (version 4) UUID.
    pub fn new_v4() -> (u: Uuid)
        ensures
            is_random_v4(u.value),
    {
        Uuid { value: random_uuid_bits() }
    }
}

/// The kind of content a paste holds.
#[derive(Clone, Copy, Debug, PartialEq, Eq, Structural)]
pub enum MimeKind {
    PlainText,
    Html,
    Markdown,
    OctetStream,
}

/// Everything that can go wrong while storing or rendering a paste.
#[derive(Debug)]
pub enum AppError {
    NotFound,
    PayloadTooLarge,
    BadRequest(String),
    MarkdownParserFailed,
    /// The diagram renderer refused a `mermaid` block; the text is its message.
    MermaidRenderError(String),
    FullCapacityEvictionFailed,
}

/// One stored paste.
#[derive(Debug)]
pub struct Paste {
    pub id: Uuid,
    pub name: String,
    pub content: Vec<u8>,
    pub mimetype: MimeKind,
    pub hits: u32,
    pub last_seen_tick: u64,
    /// The original file name of an uploaded file, when one was given.
    pub file_name: Option<String>,
}

/// The message of the error that `Paste::new` returns for empty content.
pub open spec fn empty_content_message() -> Seq<char> {
    seq!['C', 'o', 'n', 't', 'e', 'n', 't', ' ', 'c', 'a', 'n', 'n', 'o', 't', ' ', 'b', 'e', ' ', 'e', 'm', 'p', 't', 'y']
}

/// The message of the error that `Paste::new` returns for a blank name.
pub open spec fn blank_name_message() -> Seq<char> {
    seq!['N', 'a', 'm', 'e', ' ', 'c', 'a', 'n', 'n', 'o', 't', ' ', 'b', 'e', ' ', 'e', 'm', 'p', 't', 'y']
}

/// `r` failed with a `BadRequest` carrying exactly the text `text`.
pub open spec fn is_bad_request<T>(r: Result<T, AppError>, text: Seq<char>) -> bool {
    match r {
        Err(AppError::BadRequest(m)) => m@ == text,
        _ => false,
    }
}

/// The validation that every new paste's content passes: at most `max_size`
/// bytes (else `PayloadTooLarge`), and not empty (else `BadRequest`).
pub fn check_content(len: usize, max_size: usize) -> (r: Result<(), AppError>)
    ensures
        r is Ok <==> (len <= max_size && len > 0),
        len > max_size ==> r matches Err(AppError::PayloadTooLarge),
        len <= max_size && len == 0 ==> is_bad_request(r, empty_content_message()),
{
    if len > max_size {
        return Err(AppError::PayloadTooLarge);
    }
    if len == 0 {
        let v: Vec<char> = vec!['C', 'o', 'n', 't', 'e', 'n', 't', ' ', 'c', 'a', 'n', 'n', 'o', 't', ' ', 'b', 'e', ' ', 'e', 'm', 'p', 't', 'y'];
        assert(v@ =~= empty_content_message());
        return Err(AppError::BadRequest(string_of(v.as_slice())));
    }
    Ok(())
}

// ---------------------------------------------------------------------------
// File names.
// ---------------------------------------------------------------------------

/// A control character (Unicode general category `Cc`), what `char::is_control` tests.
pub open spec fn is_control_spec(c: char) -> bool {
    c as u32 <= 0x1f || (0x7f <= c as u32 && c as u32 <= 0x9f)
}

/// A character that may stay in a file name: neither a control character nor a
/// double quote (which would end the `filename="..."` of a header).
pub open spec fn file_name_char(c: char) -> bool {
    !is_control_spec(c) && c != '"'
}

/// The characters of `s` that may stay in a file name, in order.
pub open spec fn file_name_chars(s: Seq<char>) -> Seq<char>
    decreases s.len(),
{
    if s.len() == 0 {
        Seq::empty()
    } else if file_name_char(s.last()) {
        file_name_chars(s.drop_last()).push(s.last())
    } else {
        file_name_chars(s.drop_last())
    }
}

/// `s` without its leading white space.
pub open spec fn trim_start(s: Seq<char>) -> Seq<char>
    decreases s.len(),
{
    if s.len() > 0 && is_white_space_spec(s[0]) {
        trim_start(s.skip(1))
    } else {
        s
    }
}

/// `s` without its trailing white space.
pub open spec fn trim_end(s: Seq<char>) -> Seq<char>
    decreases s.len(),
{
    if s.len() > 0 && is_white_space_spec(s.last()) {
        trim_end(s.drop_last())
    } else {
        s
    }
}

/// The longest file name kept, in characters.
pub open spec fn max_file_name_len() -> int {
    255
}

/// What a submitted file name becomes: control characters and double quotes
/// dropped, surrounding white space trimmed, cut to 255 characters; nothing when
/// nothing is left.
pub open spec fn sanitized_file_name(s: Seq<char>) -> Option<Seq<char>> {
    let t = trim_end(trim_start(file_name_chars(s)));
    let t2 = if t.len() > max_file_name_len() { t.take(max_file_name_len()) } else { t };
    if t2.len() == 0 {
        None
    } else {
        Some(t2)
    }
}

fn is_control(c: char) -> (b: bool)
    ensures
        b == is_control_spec(c),
{
    let n = c as u32;
    n <= 0x1f || (0x7f <= n && n <= 0x9f)
}

/// Makes a submitted file name safe to store and to put in a
/// `Content-Disposition` header; `None` when nothing usable is left.
pub fn sanitize_file_name(name: &str) -> (r: Option<String>)
    ensures
        r matches Some(s) ==> sanitized_file_name(name@) == Some(s@),
        r is None ==> sanitized_file_name(name@) is None,
{
    let v = chars_of(name);
    // Drop what may not stay.
    let mut kept: Vec<char> = Vec::new();
    let mut i: usize = 0;
    while i < v.len()
        invariant
            v@ == name@,
            i <= v.len(),
            kept@ == file_name_chars(v@.take(i as int)),
        decreases v.len() - i,
    {
        assert(v@.take(i + 1).drop_last() =~= v@.take(i as int));
        let c = v[i];
        if !is_control(c) && c != '"' {
            kept.push(c);
        }
        i += 1;
    }
    assert(v@.take(v@.len() as int) =~= v@);
    // Trim white space at the start.
    let mut a: usize = 0;
    assert(kept@.skip(0) =~= kept@);
    while a < kept.len() && is_white_space(kept[a])
        invariant
            a <= kept@.len(),
            trim_start(kept@) == trim_start(kept@.skip(a as int)),
        decreases kept.len() - a,
    {
        assert(kept@.skip(a as int).skip(1) =~= kept@.skip(a + 1));
        a += 1;
    }
    // Trim white space at the end.
    let ghost front = kept@.skip(a as int);
    let mut b: usize = kept.len();
    assert(front.take(front.len() as int) =~= front);
    while b > a && is_white_space(kept[b - 1])
        invariant
            a <= b <= kept@.len(),
            front == kept@.skip(a as int),
            trim_end(front) == trim_end(front.take(b - a)),
        decreases b - a,
    {
        assert(front.take(b - a).drop_last() =~= front.take(b - 1 - a));
        b -= 1;
    }
    let end = if b - a > 255 { a + 255 } else { b };
    let mut out: Vec<char> = Vec::new();
    let mut k: usize = a;
    while k < end
        invariant
            a <= k <= end,
            end <= kept@.len(),
            out@ == kept@.subrange(a as int, k as int),
        decreases end - k,
    {
        out.push(kept[k]);
        k += 1;
        assert(out@ =~= kept@.subrange(a as int, k as int));
    }
    proof {
        let t = trim_end(trim_start(kept@));
        assert(t == front.take(b - a)) by {
            assert(trim_start(kept@) == front);
            assert(trim_end(front) == front.take(b - a));
        }
        if b - a > 255 {
            assert(out@ =~= t.take(255));
        } else {
            assert(out@ =~= t);
        }
    }
    if out.len() == 0 {
        None
    } else {
        Some(string_of(out.as_slice()))
    }
}

proof fn lemma_file_name_chars_allowed(s: Seq<char>)
    ensures
        forall|i: int| 0 <= i < file_name_chars(s).len() ==> file_name_char(#[trigger] file_name_chars(s)[i]),
    decreases s.len(),
{
    if s.len() > 0 {
        lemma_file_name_chars_allowed(s.drop_last());
        let p = file_name_chars(s.drop_last());
        assert forall|i: int| 0 <= i < file_name_chars(s).len() implies file_name_char(
            #[trigger] file_name_chars(s)[i],
        ) by {
            if i < p.len() {
                assert(file_name_chars(s)[i] == p[i]);
            }
        }
    }
}

proof fn lemma_trim_start_is_suffix(s: Seq<char>)
    ensures
        trim_start(s).len() <= s.len(),
        trim_start(s) == s.skip(s.len() - trim_start(s).len()),
    decreases s.len(),
{
    if s.len() > 0 && is_white_space_spec(s[0]) {
        lemma_trim_start_is_suffix(s.skip(1));
        assert(s.skip(1).skip(s.skip(1).len() - trim_start(s.skip(1)).len()) =~= s.skip(
            s.len() - trim_start(s).len(),
        ));
    } else {
        assert(s.skip(0) =~= s);
    }
}

proof fn lemma_trim_end_is_prefix(s: Seq<char>)
    ensures
        trim_end(s).len() <= s.len(),
        trim_end(s) == s.take(trim_end(s).len() as int),
    decreases s.len(),
{
    if s.len() > 0 && is_white_space_spec(s.last()) {
        lemma_trim_end_is_prefix(s.drop_last());
        assert(s.drop_last().take(trim_end(s).len() as int) =~= s.take(trim_end(s).len() as int));
    } else {
        assert(s.take(s.len() as int) =~= s);
    }
}

/// A sanitized file name is safe in `filename="..."`: it is not empty, has at
/// most 255 characters, and holds no double quote and no control character.
pub proof fn law_sanitized_file_name_is_header_safe(s: Seq<char>)
    ensures
        sanitized_file_name(s) matches Some(t) ==> {
            &&& 0 < t.len() <= max_file_name_len()
            &&& forall|i: int| 0 <= i < t.len() ==> file_name_char(#[trigger] t[i])
        },
{
    let k = file_name_chars(s);
    lemma_file_name_chars_allowed(s);
    lemma_trim_start_is_suffix(k);
    let a = trim_start(k);
    lemma_trim_end_is_prefix(a);
    let t = trim_end(a);
    assert forall|i: int| 0 <= i < t.len() implies file_name_char(#[trigger] t[i]) by {
        assert(t[i] == a[i]);
        assert(a[i] == k[k.len() - a.len() + i]);
    }
}

/// `c` equals the lowercase pattern character `p`, ignoring ASCII case.
pub open spec fn same_letter_ignoring_case(c: char, p: char) -> bool {
    c == p || ('a' <= p && p <= 'z' && c as u32 + 32 == p as u32)
}

/// `e` spells `pat` (lowercase), ignoring ASCII case.
pub open spec fn spells(e: Seq<char>, pat: Seq<char>) -> bool {
    e.len() == pat.len() && forall|i: int| 0 <= i < e.len() ==> same_letter_ignoring_case(#[trigger] e[i], pat[i])
}

/// The file extensions that are shown as an image preview.
pub open spec fn image_extension(e: Seq<char>) -> bool {
    ||| spells(e, seq!['p', 'n', 'g'])
    ||| spells(e, seq!['j', 'p', 'g'])
    ||| spells(e, seq!['j', 'p', 'e', 'g'])
    ||| spells(e, seq!['g', 'i', 'f'])
    ||| spells(e, seq!['w', 'e', 'b', 'p'])
    ||| spells(e, seq!['b', 'm', 'p'])
    ||| spells(e, seq!['s', 'v', 'g'])
    ||| spells(e, seq!['i', 'c', 'o'])
}

/// `name` has an extension (what follows its last `.`) that names an image format.
pub open spec fn is_image_file_name_spec(name: Seq<char>) -> bool {
    exists|d: int|
        0 <= d < name.len() && name[d] == '.' && (forall|j: int| d < j < name.len() ==> name[j] != '.')
            && #[trigger] image_extension(name.skip(d + 1))
}

fn spells_at(v: &Vec<char>, from: usize, pat: &str) -> (b: bool)
    requires
        from <= v.len(),
    ensures
        b == spells(v@.skip(from as int), pat@),
{
    let p = chars_of(pat);
    if v.len() - from != p.len() {
        return false;
    }
    let mut i: usize = 0;
    while i < p.len()
        invariant
            i <= p.len(),
            from <= v@.len() <= usize::MAX,
            v@.len() - from == p@.len(),
            p@ == pat@,
            forall|j: int| 0 <= j < i ==> same_letter_ignoring_case(#[trigger] v@.skip(from as int)[j], p@[j]),
        decreases p.len() - i,
    {
        let c = v[from + i];
        let q = p[i];
        let ok = c == q || ('a' <= q && q <= 'z' && (c as u32) == (q as u32) - 32);
        if !ok {
            assert(v@.skip(from as int)[i as int] == c);
            return false;
        }
        assert(v@.skip(from as int)[i as int] == c);
        i += 1;
    }
    true
}

/// Whether a file name's extension (after its last `.`, in any letter case) is
/// one of `png`, `jpg`, `jpeg`, `gif`, `webp`, `bmp`, `svg`, `ico`.
pub fn is_image_file_name(name: &str) -> (b: bool)
    ensures
        b == is_image_file_name_spec(name@),
{
    let v = chars_of(name);
    let mut d: usize = v.len();
    while d > 0 && v[d - 1] != '.'
        invariant
            d <= v@.len(),
            v@ == name@,
            forall|j: int| d <= j < v@.len() ==> v@[j] != '.',
        decreases d,
    {
        d -= 1;
    }
    if d == 0 {
        assert(!is_image_file_name_spec(name@)) by {
            if is_image_file_name_spec(name@) {
                let e = choose|e: int|
                    0 <= e < name@.len() && name@[e] == '.' && (forall|j: int| e < j < name@.len() ==> name@[j] != '.')
                        && #[trigger] image_extension(name@.skip(e + 1));
                assert(v@[e] != '.');
            }
        }
        return false;
    }
    proof {
        reveal_strlit("png");
        reveal_strlit("jpg");
        reveal_strlit("jpeg");
        reveal_strlit("gif");
        reveal_strlit("webp");
        reveal_strlit("bmp");
        reveal_strlit("svg");
        reveal_strlit("ico");
        assert("png"@ =~= seq!['p', 'n', 'g']);
        assert("jpg"@ =~= seq!['j', 'p', 'g']);
        assert("jpeg"@ =~= seq!['j', 'p', 'e', 'g']);
        assert("gif"@ =~= seq!['g', 'i', 'f']);
        assert("webp"@ =~= seq!['w', 'e', 'b', 'p']);
        assert("bmp"@ =~= seq!['b', 'm', 'p']);
        assert("svg"@ =~= seq!['s', 'v', 'g']);
        assert("ico"@ =~= seq!['i', 'c', 'o']);
    }
    let r = spells_at(&v, d, "png") || spells_at(&v, d, "jpg") || spells_at(&v, d, "jpeg") || spells_at(
        &v,
        d,
        "gif",
    ) || spells_at(&v, d, "webp") || spells_at(&v, d, "bmp") || spells_at(&v, d, "svg") || spells_at(
        &v,
        d,
        "ico",
    );
    proof {
        let dot = d - 1;
        assert(v@[dot as int] == '.');
        assert(image_extension(name@.skip(dot + 1)) == r);
        if is_image_file_name_spec(name@) {
            let e = choose|e: int|
                0 <= e < name@.len() && name@[e] == '.' && (forall|j: int| e < j < name@.len() ==> name@[j] != '.')
                    && #[trigger] image_extension(name@.skip(e + 1));
            assert(e == dot);
        }
        if r {
            assert(is_image_file_name_spec(name@));
        }
    }
    r
}

impl Paste {
    /// Validates and builds a named paste with no hits, touched at `last_seen_tick`.
    ///
    /// Content longer than `max_paste_size` is refused first, then empty
    /// content, then a name made of white space only.
    pub fn new(
        name: String,
        content: Vec<u8>,
        mimetype: MimeKind,
        last_seen_tick: u64,
        max_paste_size: usize,
    ) -> (r: Result<Self, AppError>)
        ensures
            r is Ok <==> (content.len() <= max_paste_size && content.len() > 0 && !blank_spec(name@)),
            content.len() > max_paste_size ==> r matches Err(AppError::PayloadTooLarge),
            content.len() <= max_paste_size && content.len() == 0 ==> is_bad_request(r, empty_content_message()),
            content.len() <= max_paste_size && content.len() > 0 && blank_spec(name@) ==> is_bad_request(r, blank_name_message()),
            r matches Ok(p) ==> {
                &&& is_random_v4(p.id.value)
                &&& p.name == name
                &&& p.content == content
                &&& p.mimetype == mimetype
                &&& p.hits == 0
                &&& p.last_seen_tick == last_seen_tick
                &&& p.file_name is None
            },
    {
        match check_content(content.len(), max_paste_size) {
            Err(e) => {
                return Err(e);
            },
            Ok(()) => {},
        }
        if is_blank(name.as_str()) {
            let v: Vec<char> = vec!['N', 'a', 'm', 'e', ' ', 'c', 'a', 'n', 'n', 'o', 't', ' ', 'b', 'e', ' ', 'e', 'm', 'p', 't', 'y'];
            assert(v@ =~= blank_name_message());
            return Err(AppError::BadRequest(string_of(v.as_slice())));
        }
        Ok(Paste {
            id: Uuid::new_v4(),
            name,
            content,
            mimetype,
            hits: 0,
            last_seen_tick,
            file_name: None,
        })
    }

    /// Counts one more view.
    pub fn increment_hits(&mut self)
        requires
            old(self).hits < u32::MAX,
        ensures
            final(self).hits == old(self).hits + 1,
            final(self).id == old(self).id,
            final(self).name == old(self).name,
            final(self).content == old(self).content,
            final(self).mimetype == old(self).mimetype,
            final(self).last_seen_tick == old(self).last_seen_tick,
            final(self).file_name == old(self).file_name,
    {
        self.hits = self.hits + 1;
    }

    /// Counts one view down, stopping at zero.
    pub fn decrement_hits(&mut self)
        ensures
            final(self).hits == (if old(self).hits > 0 { old(self).hits - 1 } else { 0 }),
            final(self).id == old(self).id,
            final(self).name == old(self).name,
            final(self).content == old(self).content,
            final(self).mimetype == old(self).mimetype,
            final(self).last_seen_tick == old(self).last_seen_tick,
            final(self).file_name == old(self).file_name,
    {
        if self.hits > 0 {
            self.hits = self.hits - 1;
        }
    }

    /// Records a view at `tick`: the paste was last seen then, and has one more hit.
    pub fn update(&mut self, tick: u64)
        requires
            old(self).hits < u32::MAX,
        ensures
            final(self).hits == old(self).hits + 1,
            final(self).last_seen_tick == tick,
            final(self).id == old(self).id,
            final(self).name == old(self).name,
            final(self).content == old(self).content,
            final(self).mimetype == old(self).mimetype,
            final(self).file_name == old(self).file_name,
    {
        self.last_seen_tick = tick;
        self.increment_hits();
    }
}

/// The `Debug` text of a string: quoted, with special characters escaped.
pub uninterp spec fn debug_quoted(s: Seq<char>) -> Seq<char>;

/// Trusted: `format!("{:?}", s)` of a `str`; its text, a function of `s`
/// alone, is named `debug_quoted`.
#[verifier::external_body]
fn debug_quote(s: &str) -> (r: String)
    ensures
        r@ == debug_quoted(s@),
{
    format!("{:?}", s)
}

fn owned_text(s: &str) -> (r: String)
    ensures
        r@ == s@,
{
    string_of(chars_of(s).as_slice())
}

fn wrapped_text(prefix: &str, inner: &str, suffix: &str) -> (r: String)
    ensures
        r@ == prefix@ + inner@ + suffix@,
{
    let mut v = chars_of(prefix);
    push_str(&mut v, inner);
    push_str(&mut v, suffix);
    string_of(v.as_slice())
}

impl MimeKind {
    /// The variant's name, as `{:?}` writes it.
    pub open spec fn name_text(self) -> Seq<char> {
        match self {
            MimeKind::PlainText => "PlainText"@,
            MimeKind::Html => "Html"@,
            MimeKind::Markdown => "Markdown"@,
            MimeKind::OctetStream => "OctetStream"@,
        }
    }

    /// The variant's name, as `{:?}` writes it.
    pub fn debug_name(&self) -> (r: String)
        ensures
            r@ == self.name_text(),
    {
        match self {
            MimeKind::PlainText => owned_text("PlainText"),
            MimeKind::Html => owned_text("Html"),
            MimeKind::Markdown => owned_text("Markdown"),
            MimeKind::OctetStream => owned_text("OctetStream"),
        }
    }
}

impl AppError {
    /// The HTTP status that answers this error.
    pub open spec fn status_spec(&self) -> u16 {
        match self {
            AppError::NotFound => 404,
            AppError::PayloadTooLarge => 413,
            _ => 400,
        }
    }

    /// The HTTP status that answers this error: 404 for a missing paste, 413
    /// for content over the limit, 400 for everything else.
    pub fn status_code(&self) -> (s: u16)
        ensures
            s == self.status_spec(),
    {
        match self {
            AppError::NotFound => 404,
            AppError::PayloadTooLarge => 413,
            _ => 400,
        }
    }

    /// The text of the HTTP answer to this error.
    pub open spec fn message_spec(&self) -> Seq<char> {
        match self {
            AppError::NotFound => "Paste not found"@,
            AppError::PayloadTooLarge => "Payload too large"@,
            AppError::BadRequest(e) => e@,
            AppError::MarkdownParserFailed => "Markdown parser failed"@,
            AppError::MermaidRenderError(e) => "Mermaid render failed: "@ + e@,
            AppError::FullCapacityEvictionFailed => "Full capacity eviction failed"@,
        }
    }

    /// The text of the HTTP answer to this error.
    pub fn message(&self) -> (r: String)
        ensures
            r@ == self.message_spec(),
    {
        match self {
            AppError::NotFound => owned_text("Paste not found"),
            AppError::PayloadTooLarge => owned_text("Payload too large"),
            AppError::BadRequest(e) => e.clone(),
            AppError::MarkdownParserFailed => owned_text("Markdown parser failed"),
            AppError::MermaidRenderError(e) => {
                let r = wrapped_text("Mermaid render failed: ", e.as_str(), "");
                proof {
                    reveal_strlit("");
                    assert("Mermaid render failed: "@ + e@ + ""@ =~= "Mermaid render failed: "@ + e@);
                }
                r
            },
            AppError::FullCapacityEvictionFailed => owned_text("Full capacity eviction failed"),
        }
    }

    /// The error as `{:?}` writes it.
    pub open spec fn debug_spec(&self) -> Seq<char> {
        match self {
            AppError::NotFound => "NotFound"@,
            AppError::PayloadTooLarge => "PayloadTooLarge"@,
            AppError::BadRequest(e) => "BadRequest("@ + debug_quoted(e@) + ")"@,
            AppError::MarkdownParserFailed => "MarkdownParserFailed"@,
            AppError::MermaidRenderError(e) => "MermaidRenderError("@ + debug_quoted(e@) + ")"@,
            AppError::FullCapacityEvictionFailed => "FullCapacityEvictionFailed"@,
        }
    }

    /// The error as `{:?}` writes it, e.g. `BadRequest("Content cannot be empty")`.
    pub fn debug_text(&self) -> (r: String)
        ensures
            r@ == self.debug_spec(),
    {
        match self {
            AppError::NotFound => owned_text("NotFound"),
            AppError::PayloadTooLarge => owned_text("PayloadTooLarge"),
            AppError::BadRequest(e) => wrapped_text("BadRequest(", debug_quote(e.as_str()).as_str(), ")"),
            AppError::MarkdownParserFailed => owned_text("MarkdownParserFailed"),
            AppError::MermaidRenderError(e) => wrapped_text("MermaidRenderError(", debug_quote(e.as_str()).as_str(), ")"),
            AppError::FullCapacityEvictionFailed => owned_text("FullCapacityEvictionFailed"),
        }
    }
}

} // verus!

verus! {

proof fn lemma_clean_chars_kept(s: Seq<char>)
    requires
        forall|i: int| 0 <= i < s.len() ==> !is_control_spec(#[trigger] s[i]) && s[i] != '"',
    ensures
        file_name_chars(s) == s,
    decreases s.len(),
{
    if s.len() > 0 {
        lemma_clean_chars_kept(s.drop_last());
        assert(s.drop_last().push(s.last()) =~= s);
    }
}

/// A file name that needs no cleaning is kept as it is: a name of 1 to 255
/// characters, with no control character and no double quote, that neither
/// starts nor ends with white space, comes back unchanged (white space inside
/// it included).
pub proof fn law_clean_file_name_is_kept(s: Seq<char>)
    requires
        0 < s.len() <= 255,
        forall|i: int| 0 <= i < s.len() ==> !is_control_spec(#[trigger] s[i]) && s[i] != '"',
        !is_white_space_spec(s[0]),
        !is_white_space_spec(s[s.len() - 1]),
    ensures
        sanitized_file_name(s) == Some(s),
{
    lemma_clean_chars_kept(s);
    assert(trim_start(s) == s);
    assert(trim_end(s) == s);
}

} // verus!
