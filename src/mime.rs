//! Content types by file extension.
use vstd::prelude::*;
use crate::text::{chars_of, same_text, string_of};

verus! {

/// The content type for a file extension; unknown extensions are served as
/// plain bytes.
pub open spec fn mime_of(ext: Seq<char>) -> Seq<char> {
    if ext == "html"@ || ext == "htm"@ {
        "text/html"@
    } else if ext == "css"@ {
        "text/css"@
    } else if ext == "js"@ || ext == "mjs"@ {
        "text/javascript"@
    } else if ext == "txt"@ {
        "text/plain"@
    } else if ext == "md"@ {
        "text/markdown"@
    } else if ext == "xml"@ {
        "text/xml"@
    } else if ext == "json"@ {
        "application/json"@
    } else if ext == "wasm"@ {
        "application/wasm"@
    } else if ext == "pdf"@ {
        "application/pdf"@
    } else if ext == "png"@ {
        "image/png"@
    } else if ext == "jpg"@ || ext == "jpeg"@ {
        "image/jpeg"@
    } else if ext == "gif"@ {
        "image/gif"@
    } else if ext == "svg"@ {
        "image/svg+xml"@
    } else if ext == "ico"@ {
        "image/x-icon"@
    } else if ext == "webp"@ {
        "image/webp"@
    } else if ext == "mp3"@ {
        "audio/mpeg"@
    } else if ext == "mp4"@ {
        "video/mp4"@
    } else if ext == "woff"@ {
        "font/woff"@
    } else if ext == "woff2"@ {
        "font/woff2"@
    } else {
        "application/octet-stream"@
    }
}

/// The position of the last `c` in `s`, or -1.
pub open spec fn last_index(s: Seq<char>, c: char) -> int
    decreases s.len(),
{
    if s.len() == 0 {
        -1
    } else if s.last() == c {
        s.len() - 1
    } else {
        last_index(s.drop_last(), c)
    }
}

/// `p` without its trailing slashes.
pub open spec fn trim_end_slashes(p: Seq<char>) -> Seq<char>
    decreases p.len(),
{
    if p.len() > 0 && p.last() == '/' {
        trim_end_slashes(p.drop_last())
    } else {
        p
    }
}

/// The last segment of a path, trailing slashes aside.
pub open spec fn file_name(p: Seq<char>) -> Seq<char> {
    let q = trim_end_slashes(p);
    q.skip(last_index(q, '/') + 1)
}

/// The extension of a path: what follows the last `.` of its file name,
/// unless that `.` opens the name; empty when there is none.
pub open spec fn extension(p: Seq<char>) -> Seq<char> {
    let name = file_name(p);
    let dot = last_index(name, '.');
    if dot > 0 {
        name.skip(dot + 1)
    } else {
        Seq::empty()
    }
}

fn last_index_of(v: &Vec<char>, c: char) -> (r: usize)
    ensures
        r as int == last_index(v@, c) + 1,
        r <= v@.len(),
{
    let mut i = v.len();
    assert(v@.take(i as int) =~= v@);
    while i > 0 && v[i - 1] != c
        invariant
            i <= v@.len(),
            last_index(v@, c) == last_index(v@.take(i as int), c),
        decreases i,
    {
        assert(v@.take(i as int).drop_last() =~= v@.take(i - 1));
        i = i - 1;
    }
    if i > 0 {
        assert(v@.take(i as int).last() == c);
    }
    i
}

/// The content type for a file extension.
pub fn mime(ext: &str) -> (r: &'static str)
    ensures
        r@ == mime_of(ext@),
{
    if same_text(ext, "html") || same_text(ext, "htm") {
        "text/html"
    } else if same_text(ext, "css") {
        "text/css"
    } else if same_text(ext, "js") || same_text(ext, "mjs") {
        "text/javascript"
    } else if same_text(ext, "txt") {
        "text/plain"
    } else if same_text(ext, "md") {
        "text/markdown"
    } else if same_text(ext, "xml") {
        "text/xml"
    } else if same_text(ext, "json") {
        "application/json"
    } else if same_text(ext, "wasm") {
        "application/wasm"
    } else if same_text(ext, "pdf") {
        "application/pdf"
    } else if same_text(ext, "png") {
        "image/png"
    } else if same_text(ext, "jpg") || same_text(ext, "jpeg") {
        "image/jpeg"
    } else if same_text(ext, "gif") {
        "image/gif"
    } else if same_text(ext, "svg") {
        "image/svg+xml"
    } else if same_text(ext, "ico") {
        "image/x-icon"
    } else if same_text(ext, "webp") {
        "image/webp"
    } else if same_text(ext, "mp3") {
        "audio/mpeg"
    } else if same_text(ext, "mp4") {
        "video/mp4"
    } else if same_text(ext, "woff") {
        "font/woff"
    } else if same_text(ext, "woff2") {
        "font/woff2"
    } else {
        "application/octet-stream"
    }
}

/// The extension of a path, as `extension` describes it.
pub fn path_extension(path: &str) -> (r: String)
    ensures
        r@ == extension(path@),
{
    let all = chars_of(path);
    let mut end = all.len();
    assert(all@.take(end as int) =~= all@);
    while end > 0 && all[end - 1] == '/'
        invariant
            end <= all@.len(),
            trim_end_slashes(all@.take(end as int)) == trim_end_slashes(path@),
        decreases end,
    {
        assert(all@.take(end as int).drop_last() =~= all@.take(end - 1));
        end = end - 1;
    }
    let trimmed = string_of(&all, 0, end);
    let v = chars_of(trimmed.as_str());
    assert(v@ == trim_end_slashes(path@));
    let start = last_index_of(&v, '/');
    let name = string_of(&v, start, v.len());
    let n = chars_of(name.as_str());
    let dot = last_index_of(&n, '.');
    if dot > 1 {
        string_of(&n, dot, n.len())
    } else {
        String::new()
    }
}

/// The content type of the file at `path`, by its extension.
pub fn mime_type(path: &str) -> (r: &'static str)
    ensures
        r@ == mime_of(extension(path@)),
{
    let ext = path_extension(path);
    mime(ext.as_str())
}

} // verus!
