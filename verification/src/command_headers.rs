//! Write-command headers: the stable request hash, the header model that the
//! validation reads, and the validation of a write command against its
//! payload.

use vstd::prelude::*;

use crate::json::{JsonValue, canonical_text, canonical_json_string};
use crate::text::{
    trimmed, trim, trim_start, trim_end, ascii_lower, ascii_lower_char, lower_ascii_char, push_str,
    owned, is_unicode_whitespace, lemma_trimmed_shape,
};


verus! {

/// `c` is kept as is by the command request hash: an ASCII letter or digit,
/// `-`, `_` or `.`.
pub open spec fn is_hash_safe_char(c: char) -> bool {
    ||| ('a' <= c && c <= 'z')
    ||| ('A' <= c && c <= 'Z')
    ||| ('0' <= c && c <= '9')
    ||| c == '-'
    ||| c == '_'
    ||| c == '.'
}

pub open spec fn sanitize_hash_char(c: char) -> char {
    if is_hash_safe_char(c) {
        c
    } else {
        '-'
    }
}

/// `s` with every character that is not hash-safe replaced by `-`.
pub open spec fn sanitize_hash_part(s: Seq<char>) -> Seq<char> {
    s.map_values(|c: char| sanitize_hash_char(c))
}

/// Each part sanitized and preceded by a `-`, in order.
pub open spec fn dash_prefixed_parts(parts: Seq<Seq<char>>) -> Seq<char>
    decreases parts.len(),
{
    if parts.len() == 0 {
        seq![]
    } else {
        dash_prefixed_parts(parts.drop_last()) + seq!['-'] + sanitize_hash_part(parts.last())
    }
}

/// The command request hash: the scope and the parts, each sanitized, joined
/// by `-`.
pub open spec fn command_request_hash(scope: Seq<char>, parts: Seq<Seq<char>>) -> Seq<char> {
    sanitize_hash_part(scope) + dash_prefixed_parts(parts)
}

pub open spec fn str_views(parts: Seq<&str>) -> Seq<Seq<char>> {
    parts.map_values(|p: &str| p@)
}

fn hash_safe_char(c: char) -> (r: bool)
    ensures
        r == is_hash_safe_char(c),
{
    ('a' <= c && c <= 'z') || ('A' <= c && c <= 'Z') || ('0' <= c && c <= '9') || c == '-' || c
        == '_' || c == '.'
}

/// Appends `sanitize_hash_part(s@)` to `out`.
fn push_sanitized(out: &mut String, s: &str)
    ensures
        final(out)@ == old(out)@ + sanitize_hash_part(s@),
{
    let ghost start = out@;
    for c in it: s.chars()
        invariant
            it.seq() == s@,
            out@ == start + sanitize_hash_part(s@.take(it.index() as int)),
    {
        if hash_safe_char(c) {
            out.push(c);
        } else {
            out.push('-');
        }
        assert(sanitize_hash_part(s@.take(it.index() + 1)) =~= sanitize_hash_part(
            s@.take(it.index() as int),
        ).push(sanitize_hash_char(c)));
    }
    assert(s@.take(s@.len() as int) =~= s@);
}

/// A deterministic, header-safe digest of a command: `scope` and `parts`
/// with every character outside `[A-Za-z0-9._-]` replaced by `-`, joined by
/// `-`.
pub fn stable_command_request_hash(scope: &str, parts: &[&str]) -> (hash: String)
    ensures
        hash@ == command_request_hash(scope@, str_views(parts@)),
{
    let mut out = String::new();
    push_sanitized(&mut out, scope);
    assert(out@ =~= sanitize_hash_part(scope@));
    let n = parts.len();
    for i in 0..n
        invariant
            n == parts@.len(),
            out@ == sanitize_hash_part(scope@) + dash_prefixed_parts(
                str_views(parts@.take(i as int)),
            ),
    {
        out.push('-');
        push_sanitized(&mut out, parts[i]);
        assert(str_views(parts@.take(i + 1)).drop_last() =~= str_views(parts@.take(i as int)));
        assert(str_views(parts@.take(i + 1)).last() == parts@[i as int]@);
        assert(out@ =~= sanitize_hash_part(scope@) + dash_prefixed_parts(
            str_views(parts@.take(i + 1)),
        ));
    }
    assert(parts@.take(n as int) =~= parts@);
    out
}

/// Every character of a command request hash is hash-safe, so the hash can
/// travel in a header unchanged.
pub proof fn lemma_command_request_hash_is_header_safe(scope: Seq<char>, parts: Seq<Seq<char>>)
    ensures
        forall|i: int|
            0 <= i < command_request_hash(scope, parts).len() ==> is_hash_safe_char(
                #[trigger] command_request_hash(scope, parts)[i],
            ),
    decreases parts.len(),
{
    if parts.len() > 0 {
        lemma_command_request_hash_is_header_safe(scope, parts.drop_last());
        let prev = command_request_hash(scope, parts.drop_last());
        assert(command_request_hash(scope, parts) =~= prev + seq!['-'] + sanitize_hash_part(
            parts.last(),
        ));
    }
}

/// The hash has one character per character of the scope and of each part,
/// and one separator per part; in particular it is never empty when the
/// scope or the list of parts is not.
pub proof fn lemma_command_request_hash_len(scope: Seq<char>, parts: Seq<Seq<char>>)
    ensures
        command_request_hash(scope, parts).len() >= scope.len() + parts.len(),
        (scope.len() > 0 || parts.len() > 0) ==> command_request_hash(scope, parts).len() > 0,
    decreases parts.len(),
{
    if parts.len() > 0 {
        lemma_command_request_hash_len(scope, parts.drop_last());
    }
}

pub const IDEMPOTENCY_KEY_HEADER: &'static str = "Idempotency-Key";

pub const REQUEST_HASH_HEADER: &'static str = "Sdkwork-Request-Hash";

pub const REQUEST_NO_HEADER: &'static str = "Sdkwork-Request-No";

pub const HASH_MISMATCH_MESSAGE: &'static str = "Sdkwork-Request-Hash does not match the command payload";

/// The command request hash of a JSON payload: the hash of `scope` and the
/// payload's canonical text.
pub fn stable_canonical_json_request_hash(scope: &str, value: &JsonValue) -> (hash: String)
    ensures
        hash@ == command_request_hash(scope@, seq![canonical_text(*value)]),
{
    let text = canonical_json_string(value);
    let parts: [&str; 1] = [text.as_str()];
    let hash = stable_command_request_hash(scope, &parts);
    assert(str_views(parts@) =~= seq![canonical_text(*value)]);
    hash
}

/// The kinds of error that a problem detail response reports.
#[derive(Debug, Clone, Copy, PartialEq, Eq)]
pub enum WebErrorKind {
    BadRequest,
    MissingCredentials,
    NotFound,
    Conflict,
    DependencyUnavailable,
}

/// The HTTP status of each kind of problem.
pub open spec fn status_of(kind: WebErrorKind) -> u16 {
    match kind {
        WebErrorKind::BadRequest => 400,
        WebErrorKind::MissingCredentials => 401,
        WebErrorKind::NotFound => 404,
        WebErrorKind::Conflict => 409,
        WebErrorKind::DependencyUnavailable => 503,
    }
}

impl WebErrorKind {
    /// The HTTP status of a problem of this kind.
    pub fn status_code(&self) -> (status: u16)
        ensures
            status == status_of(*self),
    {
        match self {
            WebErrorKind::BadRequest => 400,
            WebErrorKind::MissingCredentials => 401,
            WebErrorKind::NotFound => 404,
            WebErrorKind::Conflict => 409,
            WebErrorKind::DependencyUnavailable => 503,
        }
    }
}

/// The media type of a problem detail body.
pub const PROBLEM_CONTENT_TYPE: &'static str = "application/problem+json";

/// A problem detail answer: its kind and its message.
#[derive(Debug, Clone, PartialEq, Eq)]
pub struct ProblemDetail {
    pub kind: WebErrorKind,
    pub message: String,
}

impl ProblemDetail {
    /// The HTTP status of this problem.
    pub fn status(&self) -> (status: u16)
        ensures
            status == status_of(self.kind),
    {
        self.kind.status_code()
    }

    /// The media type of this problem's body.
    pub fn content_type(&self) -> (t: String)
        ensures
            t@ == PROBLEM_CONTENT_TYPE@,
    {
        owned(PROBLEM_CONTENT_TYPE)
    }
}

/// One request header as received: its name and its raw value bytes.
#[derive(Debug, Clone)]
pub struct HeaderEntry {
    pub name: String,
    pub value: Vec<u8>,
}

/// The request headers, in the order the request carried them.
#[derive(Debug, Clone)]
pub struct RequestHeaders {
    pub entries: Vec<HeaderEntry>,
}

impl RequestHeaders {
    /// No headers.
    pub fn new() -> (h: RequestHeaders)
        ensures
            h.entries@.len() == 0,
    {
        RequestHeaders { entries: Vec::new() }
    }
}

/// Header names compare without regard to ASCII case.
pub open spec fn header_name_matches(entry_name: Seq<char>, name: Seq<char>) -> bool {
    ascii_lower(entry_name) == ascii_lower(name)
}

/// The value of the first header named `name`.
pub open spec fn header_lookup(entries: Seq<HeaderEntry>, name: Seq<char>) -> Option<Seq<u8>>
    decreases entries.len(),
{
    if entries.len() == 0 {
        None
    } else if header_name_matches(entries[0].name@, name) {
        Some(entries[0].value@)
    } else {
        header_lookup(entries.drop_first(), name)
    }
}

/// A byte that a header value may hold to be read as text: visible ASCII or
/// a tab.
pub open spec fn is_visible_ascii(b: u8) -> bool {
    (32 <= b && b < 127) || b == 9
}

/// The header value as text, when every byte is visible ASCII.
pub open spec fn header_text(bytes: Seq<u8>) -> Option<Seq<char>> {
    if forall|i: int| 0 <= i < bytes.len() ==> is_visible_ascii(#[trigger] bytes[i]) {
        Some(bytes.map_values(|b: u8| b as char))
    } else {
        None
    }
}

pub open spec fn header_required_message(name: Seq<char>) -> Seq<char> {
    name + " header is required"@
}

pub open spec fn header_invalid_message(name: Seq<char>) -> Seq<char> {
    name + " header value is invalid"@
}

/// A required header: its trimmed text, or the message of the problem.
pub open spec fn required_header_outcome(entries: Seq<HeaderEntry>, name: Seq<char>) -> Result<
    Seq<char>,
    Seq<char>,
> {
    match header_lookup(entries, name) {
        None => Err(header_required_message(name)),
        Some(bytes) => match header_text(bytes) {
            None => Err(header_invalid_message(name)),
            Some(t) => if trimmed(t).len() == 0 {
                Err(header_required_message(name))
            } else {
                Ok(trimmed(t))
            },
        },
    }
}

/// An optional header: its trimmed text when present, readable and not
/// blank.
pub open spec fn optional_header_outcome(entries: Seq<HeaderEntry>, name: Seq<char>) -> Option<
    Seq<char>,
> {
    match header_lookup(entries, name) {
        None => None,
        Some(bytes) => match header_text(bytes) {
            None => None,
            Some(t) => if trimmed(t).len() == 0 {
                None
            } else {
                Some(trimmed(t))
            },
        },
    }
}

fn lower_chars(s: &str) -> (r: Vec<char>)
    ensures
        r@ == ascii_lower(s@),
{
    let mut r: Vec<char> = Vec::new();
    for c in it: s.chars()
        invariant
            it.seq() == s@,
            r@ == ascii_lower(s@.take(it.index() as int)),
    {
        r.push(lower_ascii_char(c));
        assert(r@ =~= ascii_lower(s@.take(it.index() + 1)));
    }
    assert(s@.take(s@.len() as int) =~= s@);
    r
}

fn names_match(entry_name: &str, name: &str) -> (r: bool)
    ensures
        r == header_name_matches(entry_name@, name@),
{
    let a = lower_chars(entry_name);
    let b = lower_chars(name);
    if a.len() != b.len() {
        return false;
    }
    let mut i: usize = 0;
    while i < a.len()
        invariant
            a@ == ascii_lower(entry_name@),
            b@ == ascii_lower(name@),
            a@.len() == b@.len(),
            i <= a@.len(),
            forall|j: int| 0 <= j < i ==> a@[j] == b@[j],
        decreases a@.len() - i,
    {
        if a[i] != b[i] {
            assert(a@[i as int] != b@[i as int]);
            return false;
        }
        i = i + 1;
    }
    assert(a@ =~= b@);
    true
}

/// The raw value of the first header named `name`.
pub fn lookup_header<'a>(headers: &'a RequestHeaders, name: &str) -> (r: Option<&'a Vec<u8>>)
    ensures
        match r {
            Some(v) => header_lookup(headers.entries@, name@) == Some(v@),
            None => header_lookup(headers.entries@, name@) is None,
        },
{
    let n = headers.entries.len();
    let mut i: usize = 0;
    assert(headers.entries@.skip(0) =~= headers.entries@);
    while i < n
        invariant
            n == headers.entries@.len(),
            i <= n,
            header_lookup(headers.entries@, name@) == header_lookup(
                headers.entries@.skip(i as int),
                name@,
            ),
        decreases n - i,
    {
        let ghost rest = headers.entries@.skip(i as int);
        assert(rest[0] == headers.entries@[i as int]);
        if names_match(headers.entries[i].name.as_str(), name) {
            return Some(&headers.entries[i].value);
        }
        assert(rest.drop_first() =~= headers.entries@.skip(i + 1));
        i = i + 1;
    }
    None
}

/// The header value as text (`HeaderValue::to_str`): `None` when a byte is
/// not visible ASCII.
pub fn header_value_text(bytes: &Vec<u8>) -> (r: Option<String>)
    ensures
        match r {
            Some(t) => header_text(bytes@) == Some(t@),
            None => header_text(bytes@) is None,
        },
{
    let mut out = String::new();
    let n = bytes.len();
    for i in 0..n
        invariant
            n == bytes@.len(),
            forall|j: int| 0 <= j < i ==> is_visible_ascii(#[trigger] bytes@[j]),
            out@ == bytes@.take(i as int).map_values(|b: u8| b as char),
    {
        let b = bytes[i];
        if !((32 <= b && b < 127) || b == 9) {
            return None;
        }
        out.push(b as char);
        assert(out@ =~= bytes@.take(i + 1).map_values(|b: u8| b as char));
    }
    assert(bytes@.take(n as int) =~= bytes@);
    Some(out)
}

fn message_with(name: &str, suffix: &str) -> (r: String)
    ensures
        r@ == name@ + suffix@,
{
    let mut out = owned(name);
    push_str(&mut out, suffix);
    out
}

/// A required header's trimmed text; a bad-request problem when it is
/// missing, unreadable or blank.
pub fn required_text_header(headers: &RequestHeaders, name: &str) -> (r: Result<String, ProblemDetail>)
    ensures
        match required_header_outcome(headers.entries@, name@) {
            Ok(t) => r matches Ok(v) && v@ == t,
            Err(m) => r matches Err(p) && p.kind == WebErrorKind::BadRequest && p.message@ == m,
        },
{
    match lookup_header(headers, name) {
        None => Err(ProblemDetail {
            kind: WebErrorKind::BadRequest,
            message: message_with(name, " header is required"),
        }),
        Some(bytes) => match header_value_text(bytes) {
            None => Err(ProblemDetail {
                kind: WebErrorKind::BadRequest,
                message: message_with(name, " header value is invalid"),
            }),
            Some(text) => {
                let value = trim(text.as_str());
                if value.as_str().is_empty() {
                    Err(ProblemDetail {
                        kind: WebErrorKind::BadRequest,
                        message: message_with(name, " header is required"),
                    })
                } else {
                    Ok(value)
                }
            },
        },
    }
}

/// An optional header's trimmed text, when present, readable and not blank.
pub fn optional_text_header(headers: &RequestHeaders, name: &str) -> (r: Option<String>)
    ensures
        match optional_header_outcome(headers.entries@, name@) {
            Some(t) => r matches Some(v) && v@ == t,
            None => r is None,
        },
{
    match lookup_header(headers, name) {
        None => None,
        Some(bytes) => match header_value_text(bytes) {
            None => None,
            Some(text) => {
                let value = trim(text.as_str());
                if value.as_str().is_empty() {
                    None
                } else {
                    Some(value)
                }
            },
        },
    }
}

/// The headers that every write command carries.
#[derive(Debug, Clone, PartialEq, Eq)]
pub struct AppWriteCommandHeaders {
    pub idempotency_key: String,
    pub request_hash: String,
    pub request_no: String,
}

/// Why the write-command headers were refused.
#[derive(Debug, Clone, PartialEq, Eq)]
pub enum WriteCommandHeaderError {
    MissingHeader(&'static str),
    InvalidHeader(&'static str),
}

/// What the header checks decide, short of the fallback request number: the
/// error, or the idempotency key and the request hash.
pub open spec fn write_header_checks(entries: Seq<HeaderEntry>) -> Result<
    (Seq<char>, Seq<char>),
    WriteCommandHeaderError,
> {
    match required_header_outcome(entries, IDEMPOTENCY_KEY_HEADER@) {
        Err(_) => Err(WriteCommandHeaderError::MissingHeader(IDEMPOTENCY_KEY_HEADER)),
        Ok(key) => match required_header_outcome(entries, REQUEST_HASH_HEADER@) {
            Err(_) => Err(WriteCommandHeaderError::MissingHeader(REQUEST_HASH_HEADER)),
            Ok(hash) => Ok((key, hash)),
        },
    }
}

/// `h` holds the idempotency key and request hash that the checks found, and
/// as request number the `Sdkwork-Request-No` header or, when that is absent
/// or blank, what the fallback made of the idempotency key.
pub open spec fn write_headers_found<F: FnOnce(&str) -> String>(
    entries: Seq<HeaderEntry>,
    fallback_request_no: F,
    h: AppWriteCommandHeaders,
) -> bool {
    &&& write_header_checks(entries) matches Ok((key, hash))
    &&& h.idempotency_key@ == key
    &&& h.request_hash@ == hash
    &&& match optional_header_outcome(entries, REQUEST_NO_HEADER@) {
        Some(no) => h.request_no@ == no,
        None => exists|k: &str| k@ == key && call_ensures(fallback_request_no, (k,), h.request_no),
    }
}

/// The idempotency key and request hash (both required) and the request
/// number (optional; `fallback_request_no` makes one from the idempotency
/// key when it is absent).
pub fn parse_required_write_command_headers<F: FnOnce(&str) -> String>(
    headers: &RequestHeaders,
    fallback_request_no: F,
) -> (r: Result<AppWriteCommandHeaders, WriteCommandHeaderError>)
    requires
        forall|k: &str| call_requires(fallback_request_no, (k,)),
    ensures
        match write_header_checks(headers.entries@) {
            Err(e) => r == Err::<AppWriteCommandHeaders, WriteCommandHeaderError>(e),
            Ok(_) => r matches Ok(h) && write_headers_found(headers.entries@, fallback_request_no, h),
        },
{
    let idempotency_key = match required_text_header(headers, IDEMPOTENCY_KEY_HEADER) {
        Ok(v) => v,
        Err(_) => return Err(WriteCommandHeaderError::MissingHeader(IDEMPOTENCY_KEY_HEADER)),
    };
    let request_hash = match required_text_header(headers, REQUEST_HASH_HEADER) {
        Ok(v) => v,
        Err(_) => return Err(WriteCommandHeaderError::MissingHeader(REQUEST_HASH_HEADER)),
    };
    let request_no = match optional_text_header(headers, REQUEST_NO_HEADER) {
        Some(v) => v,
        None => fallback_request_no(idempotency_key.as_str()),
    };
    Ok(AppWriteCommandHeaders { idempotency_key, request_hash, request_no })
}

/// What checking a write command against its payload gives: the error of
/// the header checks; else, when the request hash header equals (both
/// trimmed) the command request hash of `scope` and the payload's canonical
/// text, the headers found; else the hash mismatch.
pub open spec fn write_payload_result<F: FnOnce(&str) -> String>(
    entries: Seq<HeaderEntry>,
    scope: Seq<char>,
    body: JsonValue,
    fallback_request_no: F,
    r: Result<AppWriteCommandHeaders, WriteCommandHeaderError>,
) -> bool {
    match write_header_checks(entries) {
        Err(e) => r == Err::<AppWriteCommandHeaders, WriteCommandHeaderError>(e),
        Ok((key, hash)) => if trimmed(command_request_hash(scope, seq![canonical_text(body)]))
            == trimmed(hash) {
            r matches Ok(h) && write_headers_found(entries, fallback_request_no, h)
        } else {
            r == Err::<AppWriteCommandHeaders, WriteCommandHeaderError>(
                WriteCommandHeaderError::InvalidHeader(HASH_MISMATCH_MESSAGE),
            )
        },
    }
}

/// The write-command headers checked against the payload: the request hash
/// header must equal, both trimmed, the command request hash of `scope` and
/// the payload's canonical text.
pub fn validate_write_payload<F: FnOnce(&str) -> String>(
    headers: &RequestHeaders,
    scope: &str,
    body: &JsonValue,
    fallback_request_no: F,
) -> (r: Result<AppWriteCommandHeaders, WriteCommandHeaderError>)
    requires
        forall|k: &str| call_requires(fallback_request_no, (k,)),
    ensures
        write_payload_result(headers.entries@, scope@, *body, fallback_request_no, r),
{
    let write_headers = match parse_required_write_command_headers(headers, fallback_request_no) {
        Ok(h) => h,
        Err(e) => return Err(e),
    };
    let expected_hash = stable_canonical_json_request_hash(scope, body);
    let expected = trim(expected_hash.as_str());
    let given = trim(write_headers.request_hash.as_str());
    if !text_eq(&expected, &given) {
        return Err(WriteCommandHeaderError::InvalidHeader(HASH_MISMATCH_MESSAGE));
    }
    Ok(write_headers)
}

fn text_eq(a: &String, b: &String) -> (r: bool)
    ensures
        r == (a@ == b@),
{
    crate::json::key_eq(a, b.as_str())
}

/// The problem that answers a refused write command: a bad request, with
/// `"<name> header is required"` for a missing header and the message
/// itself for an invalid one.
pub open spec fn write_header_problem_message(error: WriteCommandHeaderError) -> Seq<char> {
    match error {
        WriteCommandHeaderError::MissingHeader(name) => header_required_message(name@),
        WriteCommandHeaderError::InvalidHeader(message) => message@,
    }
}

pub fn write_command_header_error_to_problem(error: WriteCommandHeaderError) -> (p: ProblemDetail)
    ensures
        p.kind == WebErrorKind::BadRequest,
        p.message@ == write_header_problem_message(error),
{
    match error {
        WriteCommandHeaderError::MissingHeader(name) => ProblemDetail {
            kind: WebErrorKind::BadRequest,
            message: message_with(name, " header is required"),
        },
        WriteCommandHeaderError::InvalidHeader(message) => ProblemDetail {
            kind: WebErrorKind::BadRequest,
            message: owned(message),
        },
    }
}

/// What the application check of a write command gives: the headers found,
/// a bad-request problem with the message of the header check that failed,
/// or one with the hash mismatch message.
pub open spec fn app_write_payload_result<F: FnOnce(&str) -> String>(
    entries: Seq<HeaderEntry>,
    scope: Seq<char>,
    body: JsonValue,
    fallback_request_no: F,
    r: Result<AppWriteCommandHeaders, ProblemDetail>,
) -> bool {
    match write_header_checks(entries) {
        Err(e) => r matches Err(p) && p.kind == WebErrorKind::BadRequest && p.message@
            == write_header_problem_message(e),
        Ok((key, hash)) => if trimmed(command_request_hash(scope, seq![canonical_text(body)]))
            == trimmed(hash) {
            r matches Ok(h) && write_headers_found(entries, fallback_request_no, h)
        } else {
            r matches Err(p) && p.kind == WebErrorKind::BadRequest && p.message@
                == HASH_MISMATCH_MESSAGE@
        },
    }
}

/// `validate_write_payload`, with a refusal turned into its bad-request
/// problem.
pub fn validate_app_write_payload<F: FnOnce(&str) -> String>(
    headers: &RequestHeaders,
    scope: &str,
    body: &JsonValue,
    fallback_request_no: F,
) -> (r: Result<AppWriteCommandHeaders, ProblemDetail>)
    requires
        forall|k: &str| call_requires(fallback_request_no, (k,)),
    ensures
        app_write_payload_result(headers.entries@, scope@, *body, fallback_request_no, r),
{
    match validate_write_payload(headers, scope, body, fallback_request_no) {
        Ok(h) => Ok(h),
        Err(e) => Err(write_command_header_error_to_problem(e)),
    }
}

/// The write command passes the header checks and its request hash matches
/// the command request hash of `scope` and the payload text.
pub open spec fn write_payload_accepted(entries: Seq<HeaderEntry>, scope: Seq<char>, text: Seq<char>) -> bool {
    &&& write_header_checks(entries) matches Ok((key, hash))
    &&& trimmed(command_request_hash(scope, seq![text])) == trimmed(hash)
}

/// The message of the bad-request problem that refuses a write command.
pub open spec fn write_payload_problem(entries: Seq<HeaderEntry>, scope: Seq<char>, text: Seq<char>) -> Seq<char> {
    match write_header_checks(entries) {
        Err(e) => write_header_problem_message(e),
        Ok(_) => HASH_MISMATCH_MESSAGE@,
    }
}

/// `h` holds the checked idempotency key and request hash, and as request
/// number the `Sdkwork-Request-No` header or else `fallback_no` applied to
/// the idempotency key.
pub open spec fn write_headers_with_request_no(
    entries: Seq<HeaderEntry>,
    h: AppWriteCommandHeaders,
    fallback_no: spec_fn(Seq<char>) -> Seq<char>,
) -> bool {
    &&& write_header_checks(entries) matches Ok((key, hash))
    &&& h.idempotency_key@ == key
    &&& h.request_hash@ == hash
    &&& h.request_no@ == match optional_header_outcome(entries, REQUEST_NO_HEADER@) {
        Some(no) => no,
        None => fallback_no(key),
    }
}

/// The bytes of an ASCII text.
pub open spec fn ascii_bytes(s: Seq<char>) -> Seq<u8> {
    s.map_values(|c: char| c as u8)
}

/// A client that sends, with a usable idempotency key, the command request
/// hash of the scope and of the payload's canonical text as its
/// `Sdkwork-Request-Hash` header has its write command accepted.
pub proof fn lemma_matching_request_hash_is_accepted(
    entries: Seq<HeaderEntry>,
    scope: Seq<char>,
    text: Seq<char>,
)
    requires
        required_header_outcome(entries, IDEMPOTENCY_KEY_HEADER@) is Ok,
        header_lookup(entries, REQUEST_HASH_HEADER@) == Some(
            ascii_bytes(command_request_hash(scope, seq![text])),
        ),
        scope.len() > 0,
    ensures
        write_payload_accepted(entries, scope, text),
{
    let h = command_request_hash(scope, seq![text]);
    lemma_command_request_hash_is_header_safe(scope, seq![text]);
    lemma_command_request_hash_len(scope, seq![text]);
    let bytes = ascii_bytes(h);
    assert forall|i: int| 0 <= i < bytes.len() implies is_visible_ascii(#[trigger] bytes[i]) by {
        assert(is_hash_safe_char(h[i]));
    }
    assert forall|i: int| 0 <= i < h.len() implies (h[i] as u8) as char == h[i] by {
        assert(is_hash_safe_char(h[i]));
    }
    assert(bytes.map_values(|b: u8| b as char) =~= h);
    assert(is_hash_safe_char(h[0]));
    assert(is_hash_safe_char(h.last()));
    assert(trim_start(h) == h);
    assert(trim_end(h) == h);
    assert(trimmed(h) == h);
}

/// The application check of a write command is the plain check with a
/// refusal answered by a bad-request problem: it accepts exactly when the
/// plain check does, with headers the plain check may give; a missing
/// header `n` is answered `"<n> header is required"`, and an invalid
/// header with its own message.
pub proof fn lemma_app_check_is_check_with_problem<F: FnOnce(&str) -> String>(
    entries: Seq<HeaderEntry>,
    scope: Seq<char>,
    body: JsonValue,
    fallback_request_no: F,
    checked: Result<AppWriteCommandHeaders, WriteCommandHeaderError>,
    answered: Result<AppWriteCommandHeaders, ProblemDetail>,
)
    requires
        write_payload_result(entries, scope, body, fallback_request_no, checked),
        app_write_payload_result(entries, scope, body, fallback_request_no, answered),
    ensures
        checked is Ok <==> answered is Ok,
        answered matches Ok(h) ==> write_payload_result(entries, scope, body, fallback_request_no, Ok(h)),
        checked matches Err(WriteCommandHeaderError::MissingHeader(n)) ==> answered matches Err(p)
            && p.kind == WebErrorKind::BadRequest && p.message@ == n@ + " header is required"@,
        checked matches Err(WriteCommandHeaderError::InvalidHeader(m)) ==> answered matches Err(p)
            && p.kind == WebErrorKind::BadRequest && p.message@ == m@,
{
}

/// Header names match when they have the same length and agree character
/// by character once ASCII upper case is folded to lower case.
pub proof fn lemma_header_names_match_ignoring_ascii_case(a: Seq<char>, b: Seq<char>)
    ensures
        header_name_matches(a, b) <==> (a.len() == b.len() && forall|k: int|
            0 <= k < a.len() ==> #[trigger] ascii_lower_char(a[k]) == ascii_lower_char(b[k])),
{
    if a.len() == b.len() && forall|k: int|
        0 <= k < a.len() ==> #[trigger] ascii_lower_char(a[k]) == ascii_lower_char(b[k]) {
        assert(ascii_lower(a) =~= ascii_lower(b));
    }
    if header_name_matches(a, b) {
        assert(ascii_lower(a).len() == a.len());
        assert(ascii_lower(b).len() == b.len());
        assert forall|k: int| 0 <= k < a.len() implies #[trigger] ascii_lower_char(a[k]) == ascii_lower_char(b[k]) by {
            assert(ascii_lower(a)[k] == ascii_lower_char(a[k]));
            assert(ascii_lower(b)[k] == ascii_lower_char(b[k]));
            assert(ascii_lower(a)[k] == ascii_lower(b)[k]);
        }
    }
}

/// The value found for a header name is that of the first entry whose name
/// matches; none is found exactly when no entry's name matches.
pub proof fn lemma_header_lookup_is_first_match(entries: Seq<HeaderEntry>, name: Seq<char>)
    ensures
        header_lookup(entries, name) is None <==> forall|i: int|
            0 <= i < entries.len() ==> !header_name_matches(#[trigger] entries[i].name@, name),
        header_lookup(entries, name) matches Some(v) ==> exists|i: int|
            0 <= i < entries.len() && header_name_matches(#[trigger] entries[i].name@, name)
                && entries[i].value@ == v && forall|j: int|
                0 <= j < i ==> !header_name_matches(#[trigger] entries[j].name@, name),
    decreases entries.len(),
{
    if entries.len() > 0 {
        let rest = entries.drop_first();
        lemma_header_lookup_is_first_match(rest, name);
        if header_name_matches(entries[0].name@, name) {
            assert(header_name_matches(entries[0].name@, name) && entries[0].value@ == entries[0].value@);
        } else {
            assert forall|i: int| 0 <= i < rest.len() implies rest[i] == entries[i + 1] by {}
            if header_lookup(rest, name) is None {
                assert forall|i: int| 0 <= i < entries.len() implies !header_name_matches(
                    #[trigger] entries[i].name@,
                    name,
                ) by {
                    if i > 0 {
                        assert(entries[i] == rest[i - 1]);
                    }
                }
            } else {
                let v = header_lookup(rest, name)->0;
                let i = choose|i: int|
                    0 <= i < rest.len() && header_name_matches(#[trigger] rest[i].name@, name)
                        && rest[i].value@ == v && forall|j: int|
                        0 <= j < i ==> !header_name_matches(#[trigger] rest[j].name@, name);
                assert(entries[i + 1] == rest[i]);
                assert forall|j: int| 0 <= j < i + 1 implies !header_name_matches(
                    #[trigger] entries[j].name@,
                    name,
                ) by {
                    if j > 0 {
                        assert(entries[j] == rest[j - 1]);
                    }
                }
                assert(rest[i].name@ == entries[i + 1].name@);
                assert(header_name_matches(entries[i + 1].name@, name));
                assert(!(forall|q: int|
                    0 <= q < entries.len() ==> !header_name_matches(#[trigger] entries[q].name@, name)));
            }
        }
    }
}

/// A required header is accepted as a non-empty text that neither begins
/// nor ends with whitespace and holds only visible ASCII; it is refused as
/// required when absent or blank, and as invalid when it holds other bytes.
pub proof fn lemma_required_header_text(entries: Seq<HeaderEntry>, name: Seq<char>)
    ensures
        required_header_outcome(entries, name) matches Ok(t) ==> t.len() > 0
            && !is_unicode_whitespace(t[0]) && !is_unicode_whitespace(t.last()),
        header_lookup(entries, name) is None ==> required_header_outcome(entries, name) == Err::<
            Seq<char>,
            Seq<char>,
        >(name + " header is required"@),
        header_lookup(entries, name) matches Some(bytes) && (exists|i: int|
            0 <= i < bytes.len() && !is_visible_ascii(#[trigger] bytes[i])) ==> required_header_outcome(
            entries,
            name,
        ) == Err::<Seq<char>, Seq<char>>(name + " header value is invalid"@),
{
    if let Some(bytes) = header_lookup(entries, name) {
        if let Some(t) = header_text(bytes) {
            lemma_trimmed_shape(t);
        }
    }
}

/// The write-command headers pass their checks exactly when both the
/// idempotency key and the request hash are present and readable and not
/// blank; a missing idempotency key is reported before a missing hash.
pub proof fn lemma_write_header_checks(entries: Seq<HeaderEntry>)
    ensures
        write_header_checks(entries) is Ok <==> (required_header_outcome(
            entries,
            IDEMPOTENCY_KEY_HEADER@,
        ) is Ok && required_header_outcome(entries, REQUEST_HASH_HEADER@) is Ok),
        required_header_outcome(entries, IDEMPOTENCY_KEY_HEADER@) is Err ==> write_header_checks(
            entries,
        ) == Err::<(Seq<char>, Seq<char>), WriteCommandHeaderError>(
            WriteCommandHeaderError::MissingHeader(IDEMPOTENCY_KEY_HEADER),
        ),
        required_header_outcome(entries, IDEMPOTENCY_KEY_HEADER@) is Ok && required_header_outcome(
            entries,
            REQUEST_HASH_HEADER@,
        ) is Err ==> write_header_checks(entries) == Err::<
            (Seq<char>, Seq<char>),
            WriteCommandHeaderError,
        >(WriteCommandHeaderError::MissingHeader(REQUEST_HASH_HEADER)),
        write_header_checks(entries) matches Ok((key, hash)) ==> required_header_outcome(
            entries,
            IDEMPOTENCY_KEY_HEADER@,
        ) == Ok::<Seq<char>, Seq<char>>(key) && required_header_outcome(entries, REQUEST_HASH_HEADER@)
            == Ok::<Seq<char>, Seq<char>>(hash),
{
}

/// Sanitizing keeps the length, keeps every hash-safe character (ASCII
/// letters and digits, `-`, `_`, `.`) in place and puts `-` in place of
/// every other character.
pub proof fn lemma_sanitize_hash_part(s: Seq<char>)
    ensures
        sanitize_hash_part(s).len() == s.len(),
        forall|i: int|
            0 <= i < s.len() ==> (#[trigger] sanitize_hash_part(s)[i] == if ('a' <= s[i] && s[i] <= 'z')
                || ('A' <= s[i] && s[i] <= 'Z') || ('0' <= s[i] && s[i] <= '9') || s[i] == '-'
                || s[i] == '_' || s[i] == '.' {
                s[i]
            } else {
                '-'
            }),
{
}

/// The hash of a scope and one part is the sanitized scope, `-`, and the
/// sanitized part.
pub proof fn lemma_command_request_hash_of_one_part(scope: Seq<char>, part: Seq<char>)
    ensures
        command_request_hash(scope, seq![part]) == sanitize_hash_part(scope) + seq!['-']
            + sanitize_hash_part(part),
{
    assert(seq![part].drop_last() =~= Seq::<Seq<char>>::empty());
    assert(dash_prefixed_parts(Seq::<Seq<char>>::empty()) =~= Seq::<char>::empty());
}

} // verus!
