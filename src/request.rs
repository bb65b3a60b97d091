//! The request line: its method and its decoded path.
use vstd::prelude::*;
use vstd::string::StringExecFns;
use crate::decode::{decode_percent, percent_decoded, MALFORMED_URI};
use crate::text::{chars_of, push_all, same_text, string_of};

verus! {

/// `char::is_whitespace`: the characters of Unicode's `White_Space` property.
pub open spec fn is_space(c: char) -> bool {
    ||| ('\u{9}' <= c && c <= '\u{d}')
    ||| c == ' ' || c == '\u{85}' || c == '\u{a0}' || c == '\u{1680}'
    ||| ('\u{2000}' <= c && c <= '\u{200a}')
    ||| c == '\u{2028}' || c == '\u{2029}' || c == '\u{202f}' || c == '\u{205f}' || c == '\u{3000}'
}

/// The first position at or after `i` that does not hold white space.
pub open spec fn skip_space(s: Seq<char>, i: int) -> int
    decreases s.len() - i,
{
    if i < 0 || i >= s.len() || !is_space(s[i]) {
        i
    } else {
        skip_space(s, i + 1)
    }
}

/// The first position at or after `i` that holds white space, or the end.
pub open spec fn word_end(s: Seq<char>, i: int) -> int
    decreases s.len() - i,
{
    if i < 0 || i >= s.len() || is_space(s[i]) {
        i
    } else {
        word_end(s, i + 1)
    }
}

/// The first two words of a line, words being separated by white space.
pub open spec fn first_two_words(s: Seq<char>) -> Option<(Seq<char>, Seq<char>)> {
    let a0 = skip_space(s, 0);
    let e0 = word_end(s, a0);
    let a1 = skip_space(s, e0);
    let e1 = word_end(s, a1);
    if a1 < s.len() {
        Some((s.subrange(a0, e0), s.subrange(a1, e1)))
    } else {
        None
    }
}

/// The length of the path part of a URL: what stands before the first `#`
/// or `?`.
pub open spec fn path_len(s: Seq<char>) -> int
    decreases s.len(),
{
    if s.len() == 0 || s[0] == '#' || s[0] == '?' {
        0
    } else {
        1 + path_len(s.drop_first())
    }
}

/// The path part of a URL, without its query and fragment.
pub open spec fn path_part(s: Seq<char>) -> Seq<char> {
    s.take(path_len(s))
}

/// `char::is_whitespace`, as the spec function above lists it.
pub fn is_space_char(c: char) -> (r: bool)
    ensures
        r == is_space(c),
{
    ('\u{9}' <= c && c <= '\u{d}') || c == ' ' || c == '\u{85}' || c == '\u{a0}' || c == '\u{1680}'
        || ('\u{2000}' <= c && c <= '\u{200a}') || c == '\u{2028}' || c == '\u{2029}'
        || c == '\u{202f}' || c == '\u{205f}' || c == '\u{3000}'
}

fn skip_space_from(v: &Vec<char>, i: usize) -> (r: usize)
    requires
        i <= v@.len(),
    ensures
        r == skip_space(v@, i as int),
        i <= r <= v@.len(),
{
    let mut j = i;
    while j < v.len() && is_space_char(v[j])
        invariant
            i <= j <= v@.len(),
            skip_space(v@, j as int) == skip_space(v@, i as int),
        decreases v@.len() - j,
    {
        j = j + 1;
    }
    j
}

fn word_end_from(v: &Vec<char>, i: usize) -> (r: usize)
    requires
        i <= v@.len(),
    ensures
        r == word_end(v@, i as int),
        i <= r <= v@.len(),
{
    let mut j = i;
    while j < v.len() && !is_space_char(v[j])
        invariant
            i <= j <= v@.len(),
            word_end(v@, j as int) == word_end(v@, i as int),
        decreases v@.len() - j,
    {
        j = j + 1;
    }
    j
}

/// The first two words of `line`.
pub fn split_words(line: &str) -> (r: Option<(String, String)>)
    ensures
        match first_two_words(line@) {
            Some((w0, w1)) => r matches Some((a, b)) && a@ == w0 && b@ == w1,
            None => r is None,
        },
{
    let v = chars_of(line);
    let a0 = skip_space_from(&v, 0);
    let e0 = word_end_from(&v, a0);
    let a1 = skip_space_from(&v, e0);
    let e1 = word_end_from(&v, a1);
    if a1 < v.len() {
        Some((string_of(&v, a0, e0), string_of(&v, a1, e1)))
    } else {
        None
    }
}

/// The path part of a URL: everything before its first `#` or `?`.
pub fn trim_path(input: &str) -> (r: String)
    ensures
        r@ == path_part(input@),
{
    let v = chars_of(input);
    let mut i: usize = 0;
    assert(v@.skip(0) =~= v@);
    while i < v.len() && v[i] != '#' && v[i] != '?'
        invariant
            0 <= i <= v@.len(),
            i + path_len(v@.skip(i as int)) == path_len(v@),
        decreases v@.len() - i,
    {
        assert(v@.skip(i as int).drop_first() =~= v@.skip(i + 1));
        i = i + 1;
    }
    string_of(&v, 0, i)
}

/// The message for a path that does not start with `/`.
pub const NOT_ABSOLUTE: &'static str = "Path does not start with '/'";

/// The method and the decoded path of a request; the path starts with `/`.
pub struct Request {
    pub method: String,
    pub path: String,
}

/// Why a request line could not be read.
pub enum RequestError {
    /// The line does not hold two words.
    Incomplete { line: String },
    /// The path is not well percent-encoded.
    Malformed,
    /// The decoded path does not start with `/`.
    NotAbsolute,
}

/// The message that a bad-request response carries for `e`.
pub open spec fn request_error_text(e: RequestError) -> Seq<char> {
    match e {
        RequestError::Incomplete { line } => "Fail to get request method/path\n"@ + line@,
        RequestError::Malformed => MALFORMED_URI@,
        RequestError::NotAbsolute => NOT_ABSOLUTE@,
    }
}

impl RequestError {
    /// The message that the bad-request response carries.
    pub fn message(&self) -> (r: String)
        ensures
            r@ == request_error_text(*self),
    {
        match self {
            RequestError::Incomplete { line } => {
                let mut m = String::from_str("Fail to get request method/path\n");
                push_all(&mut m, line.as_str());
                m
            },
            RequestError::Malformed => String::from_str(MALFORMED_URI),
            RequestError::NotAbsolute => String::from_str(NOT_ABSOLUTE),
        }
    }
}

impl Request {
    /// Whether the method is GET, the only one served.
    pub fn is_get(&self) -> (r: bool)
        ensures
            r == (self.method@ == "GET"@),
    {
        same_text(self.method.as_str(), "GET")
    }

    /// Reads a request line: its first word is the method, its second the
    /// path, whose query and fragment are dropped before it is decoded.
    pub fn from_line(line: &str) -> (r: Result<Request, RequestError>)
        ensures
            match first_two_words(line@) {
                None => r matches Err(RequestError::Incomplete { line: l }) && l@ == line@,
                Some((m, raw)) => match percent_decoded(path_part(raw)) {
                    None => r matches Err(RequestError::Malformed),
                    Some(p) => if p.len() > 0 && p[0] == '/' {
                        r matches Ok(req) && req.method@ == m && req.path@ == p
                    } else {
                        r matches Err(RequestError::NotAbsolute)
                    },
                },
            },
    {
        match split_words(line) {
            Some((method, raw)) => {
                let trimmed = trim_path(raw.as_str());
                match decode_percent(trimmed.as_str()) {
                    Ok(path) => {
                        let v = chars_of(path.as_str());
                        if v.len() > 0 && v[0] == '/' {
                            Ok(Request { method, path })
                        } else {
                            Err(RequestError::NotAbsolute)
                        }
                    },
                    Err(_) => Err(RequestError::Malformed),
                }
            },
            None => Err(RequestError::Incomplete { line: String::from_str(line) }),
        }
    }
}

} // verus!
