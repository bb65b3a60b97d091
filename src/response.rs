//! Responses and their framing.
//!
//! Status and header lines end with a bare `\n`; the header block ends with
//! `\r\n\r\n`, after which the body follows.
use vstd::prelude::*;
use vstd::string::StringExecFns;
use vstd::utf8::encode_utf8;
use crate::decode::hex_char;
use crate::resolve::{join, join_path, ResolvedTarget, Target};
use crate::text::{chars_of, contains_text, has_infix, push_all, push_char, same_text, string_of};

verus! {

/// The reason given when the requested path is not on disk.
pub const NOT_FOUND_REASON: &'static str = "Requested path does not exist.";

/// The reason given for a method other than GET.
pub const METHOD_REASON: &'static str = "Method not allowed";

/// The decimal digits of `n`.
pub open spec fn decimal(n: nat) -> Seq<char>
    decreases n,
{
    if n < 10 {
        seq![hex_char(n as u8)]
    } else {
        decimal(n / 10).push(hex_char((n % 10) as u8))
    }
}

/// The number of bytes that `s` takes in UTF-8.
pub open spec fn byte_len(s: Seq<char>) -> nat {
    encode_utf8(s).len()
}

/// The `Content-Length` line, which closes the header block.
pub open spec fn length_line(n: nat) -> Seq<char> {
    "Content-Length: "@ + decimal(n) + "\r\n\r\n"@
}

/// The `Content-Type` line of a file; text types name their charset.
pub open spec fn type_line(mime: Seq<char>) -> Seq<char> {
    if has_infix(mime, "text"@) {
        "Content-Type: "@ + mime + "; charset=utf-8\n"@
    } else {
        "Content-Type: "@ + mime + "\n"@
    }
}

/// The head of a response that sends a file of `len` bytes.
pub open spec fn file_head_text(mime: Seq<char>, len: nat) -> Seq<char> {
    "HTTP/1.1 200 OK\n"@ + "Cache-Control: max-age=3600\n"@ + type_line(mime) + length_line(len)
}

/// The head of a response that sends a directory listing of `len` bytes.
pub open spec fn listing_head_text(len: nat) -> Seq<char> {
    "HTTP/1.1 200 OK\n"@ + "Content-Type: text/html; charset=utf-8\n"@ + length_line(len)
}

/// A plain-text error response: status line, type, length, then the body.
pub open spec fn plain_error_text(status: Seq<char>, body: Seq<char>) -> Seq<char> {
    status + "Content-Type: text/plain\n"@ + length_line(byte_len(body)) + body
}

/// The whole 400 response.
pub open spec fn bad_request_text(reason: Seq<char>) -> Seq<char> {
    plain_error_text("HTTP/1.1 400 Bad Request\n"@, "Bad Request: "@ + reason + "\n"@)
}

/// The whole 404 response, when no custom page is served.
pub open spec fn not_found_text(reason: Seq<char>) -> Seq<char> {
    plain_error_text("HTTP/1.1 404 Not Found\n"@, "Not Found: "@ + reason + "\n"@)
}

/// The head of a 404 response that serves a custom page of `len` bytes.
pub open spec fn not_found_page_head_text(len: nat) -> Seq<char> {
    "HTTP/1.1 404 Not Found\n"@ + "Content-Type: text/html\n"@ + length_line(len)
}

/// The whole 405 response.
pub open spec fn method_not_allowed_text() -> Seq<char> {
    "HTTP/1.1 405 Method Not Allowed\n"@ + "Allow: GET\n"@ + "Content-Type: text/plain\n"@
        + length_line(byte_len("405 Method Not Allowed\n"@)) + "405 Method Not Allowed\n"@
}

/// What is written for an error response before any custom page that
/// follows it; `page_len` is the length of the custom 404 page, when there
/// is one. Codes other than 400, 404 and 405 have no response.
pub open spec fn error_reply_text(code: u16, reason: Seq<char>, page_len: Option<u64>) -> Option<Seq<char>> {
    if code == 400 {
        Some(bad_request_text(reason))
    } else if code == 404 {
        match page_len {
            Some(n) => Some(not_found_page_head_text(n as nat)),
            None => Some(not_found_text(reason)),
        }
    } else if code == 405 {
        Some(method_not_allowed_text())
    } else {
        None
    }
}

/// Appends the decimal digits of `n`.
pub fn push_decimal(s: &mut String, n: u64)
    ensures
        final(s)@ == old(s)@ + decimal(n as nat),
    decreases n,
{
    if n >= 10 {
        push_decimal(s, n / 10);
    }
    push_char(s, if n % 10 == 0 { '0' } else if n % 10 == 1 { '1' } else if n % 10 == 2 { '2' }
        else if n % 10 == 3 { '3' } else if n % 10 == 4 { '4' } else if n % 10 == 5 { '5' }
        else if n % 10 == 6 { '6' } else if n % 10 == 7 { '7' } else if n % 10 == 8 { '8' }
        else { '9' });
    assert(s@ =~= old(s)@ + decimal(n as nat));
}

fn push_length_line(s: &mut String, n: u64)
    ensures
        final(s)@ == old(s)@ + length_line(n as nat),
{
    push_all(s, "Content-Length: ");
    push_decimal(s, n);
    push_all(s, "\r\n\r\n");
    assert(s@ =~= old(s)@ + length_line(n as nat));
}

/// The head of a response that sends a file of type `mime` and `len` bytes.
pub fn file_head(mime: &str, len: u64) -> (r: String)
    ensures
        r@ == file_head_text(mime@, len as nat),
{
    let mut r = String::from_str("HTTP/1.1 200 OK\n");
    push_all(&mut r, "Cache-Control: max-age=3600\n");
    push_all(&mut r, "Content-Type: ");
    push_all(&mut r, mime);
    if contains_text(mime, "text") {
        push_all(&mut r, "; charset=utf-8\n");
    } else {
        push_all(&mut r, "\n");
    }
    push_length_line(&mut r, len);
    assert(r@ =~= file_head_text(mime@, len as nat));
    r
}

/// The head of a response that sends a directory listing of `len` bytes.
pub fn listing_head(len: u64) -> (r: String)
    ensures
        r@ == listing_head_text(len as nat),
{
    let mut r = String::from_str("HTTP/1.1 200 OK\n");
    push_all(&mut r, "Content-Type: text/html; charset=utf-8\n");
    push_length_line(&mut r, len);
    assert(r@ =~= listing_head_text(len as nat));
    r
}

fn plain_error(status: &str, body: &String) -> (r: String)
    ensures
        r@ == plain_error_text(status@, body@),
{
    let mut r = String::from_str(status);
    push_all(&mut r, "Content-Type: text/plain\n");
    let len = body.as_str().as_bytes().len();
    push_length_line(&mut r, len as u64);
    push_all(&mut r, body.as_str());
    assert(r@ =~= plain_error_text(status@, body@));
    r
}

/// The whole 400 response.
pub fn bad_request(reason: &str) -> (r: String)
    ensures
        r@ == bad_request_text(reason@),
{
    let mut body = String::from_str("Bad Request: ");
    push_all(&mut body, reason);
    push_all(&mut body, "\n");
    plain_error("HTTP/1.1 400 Bad Request\n", &body)
}

/// The whole 404 response, when no custom page is served.
pub fn not_found(reason: &str) -> (r: String)
    ensures
        r@ == not_found_text(reason@),
{
    let mut body = String::from_str("Not Found: ");
    push_all(&mut body, reason);
    push_all(&mut body, "\n");
    plain_error("HTTP/1.1 404 Not Found\n", &body)
}

/// The head of a 404 response that serves a custom page of `len` bytes.
pub fn not_found_page_head(len: u64) -> (r: String)
    ensures
        r@ == not_found_page_head_text(len as nat),
{
    let mut r = String::from_str("HTTP/1.1 404 Not Found\n");
    push_all(&mut r, "Content-Type: text/html\n");
    push_length_line(&mut r, len);
    assert(r@ =~= not_found_page_head_text(len as nat));
    r
}

/// The whole 405 response.
pub fn method_not_allowed() -> (r: String)
    ensures
        r@ == method_not_allowed_text(),
{
    let body = String::from_str("405 Method Not Allowed\n");
    let mut r = String::from_str("HTTP/1.1 405 Method Not Allowed\n");
    push_all(&mut r, "Allow: GET\n");
    let rest = plain_error("", &body);
    push_all(&mut r, rest.as_str());
    proof {
        reveal_strlit("");
    }
    assert(r@ =~= method_not_allowed_text());
    r
}

/// What is written for an error response, before any custom page.
pub fn error_reply(code: u16, reason: &str, page_len: Option<u64>) -> (r: Option<String>)
    ensures
        match error_reply_text(code, reason@, page_len) {
            Some(t) => r matches Some(s) && s@ == t,
            None => r is None,
        },
{
    if code == 400 {
        Some(bad_request(reason))
    } else if code == 404 {
        match page_len {
            Some(n) => Some(not_found_page_head(n)),
            None => Some(not_found(reason)),
        }
    } else if code == 405 {
        Some(method_not_allowed())
    } else {
        None
    }
}

/// What a response is, as plain values.
pub enum Reply {
    File(Seq<char>),
    Directory(Seq<char>, Seq<char>),
    Error(u16, Seq<char>),
}

/// One response per request: a file, a directory listing, or an error with
/// its code and reason.
pub enum Response<'a> {
    File(&'a str),
    Directory(&'a str, &'a str),
    Error { code: u16, body: &'a str },
}

impl<'a> View for Response<'a> {
    type V = Reply;

    open spec fn view(&self) -> Reply {
        match self {
            Response::File(p) => Reply::File(p@),
            Response::Directory(b, p) => Reply::Directory(b@, p@),
            Response::Error { code, body } => Reply::Error(*code, body@),
        }
    }
}

/// The response for a resolved target.
pub open spec fn reply_for(t: Target) -> Reply {
    match t {
        Target::File(p) => Reply::File(p),
        Target::Directory(b, p) => Reply::Directory(b, p),
        Target::NotFound => Reply::Error(404, NOT_FOUND_REASON@),
        Target::MethodNotAllowed => Reply::Error(405, METHOD_REASON@),
    }
}

impl<'a> Response<'a> {
    /// Sends the file at `path`.
    pub fn file(path: &'a str) -> (r: Self)
        ensures
            r@ == Reply::File(path@),
    {
        Response::File(path)
    }

    /// Lists the directory `path`, with links relative to the root `base`.
    pub fn directory(base: &'a str, path: &'a str) -> (r: Self)
        ensures
            r@ == Reply::Directory(base@, path@),
    {
        Response::Directory(base, path)
    }

    /// An error response with its status code and reason.
    pub fn error(code: u16, body: &'a str) -> (r: Self)
        ensures
            r@ == Reply::Error(code, body@),
    {
        Response::Error { code, body }
    }

    /// The response for a resolved target.
    pub fn for_target(t: &'a ResolvedTarget) -> (r: Self)
        ensures
            r@ == reply_for(t@),
    {
        match t {
            ResolvedTarget::File(p) => Response::file(p.as_str()),
            ResolvedTarget::Directory(b, p) => Response::directory(b.as_str(), p.as_str()),
            ResolvedTarget::NotFound => Response::error(404, NOT_FOUND_REASON),
            ResolvedTarget::MethodNotAllowed => Response::error(405, METHOD_REASON),
        }
    }
}

/// The style sheet of a directory listing.
pub open spec fn style_text() -> Seq<char> {
    "<style>body { font-size: 1.2rem; line-height: 1.2; margin: 1rem; }</style>"@
}

/// The style sheet of a directory listing.
pub fn css() -> (r: &'static str)
    ensures
        r@ == style_text(),
{
    "<style>body { font-size: 1.2rem; line-height: 1.2; margin: 1rem; }</style>"
}

/// `s` without its leading slashes.
pub open spec fn strip_slashes(s: Seq<char>) -> Seq<char>
    decreases s.len(),
{
    if s.len() > 0 && s[0] == '/' {
        strip_slashes(s.drop_first())
    } else {
        s
    }
}

/// `e` lies under `base`: it starts with `base`, up to a segment boundary.
pub open spec fn is_under(base: Seq<char>, e: Seq<char>) -> bool {
    &&& base.len() <= e.len()
    &&& e.take(base.len() as int) == base
    &&& (e.len() == base.len() || base.len() == 0 || base.last() == '/' || e[base.len() as int] == '/')
}

/// The link to the entry `name` of the directory `dir`, relative to `base`.
pub open spec fn href_of(base: Seq<char>, dir: Seq<char>, name: Seq<char>) -> Option<Seq<char>> {
    let e = join(dir, name);
    if is_under(base, e) {
        Some(strip_slashes(e.skip(base.len() as int)))
    } else {
        None
    }
}

/// The list item of one directory entry; an entry outside `base` has none.
pub open spec fn entry_item(base: Seq<char>, dir: Seq<char>, name: Seq<char>) -> Seq<char> {
    match href_of(base, dir, name) {
        Some(h) => "<li><a href=\"/"@ + h + "\">"@ + name + "</li>"@,
        None => Seq::empty(),
    }
}

/// The list items of the entries `names`, in order.
pub open spec fn entry_items(base: Seq<char>, dir: Seq<char>, names: Seq<Seq<char>>) -> Seq<char>
    decreases names.len(),
{
    if names.len() == 0 {
        Seq::empty()
    } else {
        entry_items(base, dir, names.drop_last()) + entry_item(base, dir, names.last())
    }
}

/// The path shown above a listing: `path` without its first character.
pub open spec fn banner(path: Seq<char>) -> Seq<char> {
    if path.len() == 0 {
        path
    } else {
        path.drop_first()
    }
}

/// The HTML page that lists the directory `path` with entries `names`;
/// the link to the parent is left out at the root `base`.
pub open spec fn listing_text(base: Seq<char>, path: Seq<char>, names: Seq<Seq<char>>) -> Seq<char> {
    "<html><head>"@ + style_text()
        + "</head><body><p style=\"color: #fff; background-color: #44f;\">Path: "@ + banner(path)
        + "</p><ol>"@ + (if path == base {
        Seq::empty()
    } else {
        "<li><a href=\"..\">..</a></li>"@
    }) + entry_items(base, path, names) + "</ol></body><html>"@
}

/// The names as plain character sequences.
pub open spec fn names_view(names: Seq<String>) -> Seq<Seq<char>> {
    names.map_values(|n: String| n@)
}

fn strip_slashes_from(v: &Vec<char>, i: usize) -> (r: usize)
    requires
        i <= v@.len(),
    ensures
        i <= r <= v@.len(),
        v@.skip(r as int) == strip_slashes(v@.skip(i as int)),
{
    let mut j = i;
    while j < v.len() && v[j] == '/'
        invariant
            i <= j <= v@.len(),
            strip_slashes(v@.skip(j as int)) == strip_slashes(v@.skip(i as int)),
        decreases v@.len() - j,
    {
        assert(v@.skip(j as int).drop_first() =~= v@.skip(j + 1));
        j = j + 1;
    }
    j
}

/// The link to the entry `name` of the directory `dir`, relative to `base`.
pub fn entry_href(base: &str, dir: &str, name: &str) -> (r: Option<String>)
    ensures
        match href_of(base@, dir@, name@) {
            Some(h) => r matches Some(s) && s@ == h,
            None => r is None,
        },
{
    let e = join_path(dir, name);
    let v = chars_of(e.as_str());
    let b = chars_of(base);
    let n = b.len();
    if n > v.len() {
        return None;
    }
    let head = string_of(&v, 0, n);
    if !same_text(head.as_str(), base) {
        return None;
    }
    if !(v.len() == n || n == 0 || b[n - 1] == '/' || v[n] == '/') {
        return None;
    }
    let start = strip_slashes_from(&v, n);
    let h = string_of(&v, start, v.len());
    assert(h@ =~= v@.skip(start as int));
    Some(h)
}

/// The HTML page that lists the directory `path` with entries `names`.
pub fn directory_page(base: &str, path: &str, names: &Vec<String>) -> (r: String)
    ensures
        r@ == listing_text(base@, path@, names_view(names@)),
{
    let p = chars_of(path);
    let mut r = String::from_str("<html><head>");
    push_all(&mut r, css());
    push_all(&mut r, "</head><body><p style=\"color: #fff; background-color: #44f;\">Path: ");
    if p.len() > 0 {
        let shown = string_of(&p, 1, p.len());
        assert(shown@ =~= banner(path@));
        push_all(&mut r, shown.as_str());
    } else {
        assert(banner(path@) =~= Seq::<char>::empty());
    }
    push_all(&mut r, "</p><ol>");
    if !same_text(base, path) {
        push_all(&mut r, "<li><a href=\"..\">..</a></li>");
    }
    let ghost head = r@;
    let mut i: usize = 0;
    while i < names.len()
        invariant
            i <= names@.len(),
            r@ == head + entry_items(base@, path@, names_view(names@).take(i as int)),
        decreases names@.len() - i,
    {
        let name = names[i].as_str();
        match entry_href(base, path, name) {
            Some(h) => {
                push_all(&mut r, "<li><a href=\"/");
                push_all(&mut r, h.as_str());
                push_all(&mut r, "\">");
                push_all(&mut r, name);
                push_all(&mut r, "</li>");
            },
            None => {},
        }
        assert(names_view(names@).take(i + 1).drop_last() =~= names_view(names@).take(i as int));
        assert(r@ =~= head + entry_items(base@, path@, names_view(names@).take(i + 1)));
        i = i + 1;
    }
    assert(names_view(names@).take(i as int) =~= names_view(names@));
    push_all(&mut r, "</ol></body><html>");
    assert(r@ =~= listing_text(base@, path@, names_view(names@)));
    r
}

} // verus!
