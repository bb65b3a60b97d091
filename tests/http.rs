use rup::mime::{mime, mime_type, path_extension};
use rup::request::{split_words, trim_path, Request, RequestError};
use rup::resolve::{candidate_path, has_parent_dir, index_path, join_path, resolve, Entry, ResolvedTarget};
use rup::response::{
    bad_request, css, directory_page, error_reply, file_head, listing_head, method_not_allowed,
    not_found, not_found_page_head, push_decimal, Response, NOT_FOUND_REASON,
};
use rup::text::{contains_text, same_text};

fn request(line: &str) -> Request {
    match Request::from_line(line) {
        Ok(r) => r,
        Err(_) => panic!("request line should parse"),
    }
}

#[test]
fn request_line_is_split_and_decoded() {
    let r = request("GET /a%20b/c.txt?x=1#top HTTP/1.1\r\n");
    assert_eq!(r.method, "GET");
    assert_eq!(r.path, "/a b/c.txt");
    let r = request("  POST\t/ \n");
    assert_eq!(r.method, "POST");
    assert_eq!(r.path, "/");
}

#[test]
fn incomplete_request_line_is_refused() {
    match Request::from_line("GET\r\n") {
        Err(RequestError::Incomplete { line }) => assert_eq!(line, "GET\r\n"),
        _ => panic!("expected an incomplete line"),
    }
    let e = Request::from_line("").err().unwrap();
    assert_eq!(e.message(), "Fail to get request method/path\n");
}

#[test]
fn path_must_start_with_slash() {
    for line in ["GET foo HTTP/1.1", "GET ?x HTTP/1.1", "GET %20/x HTTP/1.1"] {
        let e = Request::from_line(line).err().unwrap();
        assert!(matches!(e, RequestError::NotAbsolute));
        assert_eq!(e.message(), "Path does not start with '/'");
    }
    assert_eq!(request("GET %2Fx HTTP/1.1").path, "/x");
}

#[test]
fn only_get_is_get() {
    assert!(request("GET / HTTP/1.1").is_get());
    assert!(!request("get / HTTP/1.1").is_get());
}

#[test]
fn malformed_path_is_refused() {
    let e = Request::from_line("GET /%zz HTTP/1.1").err().unwrap();
    assert!(matches!(e, RequestError::Malformed));
    assert_eq!(e.message(), "Malformed URI");
}

#[test]
fn words_and_path_part() {
    assert_eq!(split_words(" a  b c"), Some(("a".to_string(), "b".to_string())));
    assert_eq!(split_words("a\u{3000}b"), Some(("a".to_string(), "b".to_string())));
    assert_eq!(split_words("only"), None);
    assert_eq!(trim_path("/x?y#z"), "/x");
    assert_eq!(trim_path("/x#y?z"), "/x");
    assert_eq!(trim_path("/plain"), "/plain");
    assert_eq!(trim_path("?q"), "");
}

#[test]
fn root_with_index_resolves_to_index_file() {
    let r = request("GET / HTTP/1.1");
    let t = resolve("root", &r, Entry::Directory, Entry::File);
    assert!(matches!(t, ResolvedTarget::File(ref p) if p == "root/index.html"));
}

#[test]
fn directory_without_index_is_listed() {
    let r = request("GET /docs/ HTTP/1.1");
    let t = resolve("/srv/www", &r, Entry::Directory, Entry::Missing);
    assert!(matches!(t, ResolvedTarget::Directory(ref b, ref p) if b == "/srv/www" && p == "/srv/www/docs/"));
}

#[test]
fn file_resolves_to_itself() {
    let r = request("GET /a/b.css HTTP/1.1");
    let t = resolve("./", &r, Entry::File, Entry::Missing);
    assert!(matches!(t, ResolvedTarget::File(ref p) if p == "./a/b.css"));
}

#[test]
fn missing_path_gives_404_with_reason() {
    let r = request("GET /nope.html HTTP/1.1");
    let t = resolve(".", &r, Entry::Missing, Entry::Missing);
    assert!(matches!(t, ResolvedTarget::NotFound));
    let resp = Response::for_target(&t);
    match resp {
        Response::Error { code, body } => {
            assert_eq!(code, 404);
            let text = error_reply(code, body, None).unwrap();
            assert!(text.starts_with("HTTP/1.1 404 Not Found\n"));
            assert!(text.contains("Requested path does not exist."));
        }
        _ => panic!("expected an error response"),
    }
}

#[test]
fn non_get_method_gives_405_with_allow() {
    let r = request("POST / HTTP/1.1");
    let t = resolve(".", &r, Entry::Directory, Entry::File);
    assert!(matches!(t, ResolvedTarget::MethodNotAllowed));
    match Response::for_target(&t) {
        Response::Error { code, body } => {
            assert_eq!(code, 405);
            let text = error_reply(code, body, None).unwrap();
            assert!(text.starts_with("HTTP/1.1 405 Method Not Allowed\n"));
            assert!(text.contains("Allow: GET\n"));
        }
        _ => panic!("expected an error response"),
    }
}

#[test]
fn resolving_twice_gives_the_same_target() {
    let r = request("GET /a/ HTTP/1.1");
    let first = resolve("root", &r, Entry::Directory, Entry::Missing);
    let second = resolve("root", &r, Entry::Directory, Entry::Missing);
    match (first, second) {
        (ResolvedTarget::Directory(base_a, path_a), ResolvedTarget::Directory(base_b, path_b)) => {
            assert_eq!(base_a, base_b);
            assert_eq!(path_a, path_b);
        }
        _ => panic!("expected two listings"),
    }
}

#[test]
fn parent_segments_never_leave_the_root() {
    for line in ["GET /../etc/passwd HTTP/1.1", "GET /a/%2e%2e/%2e%2e/x HTTP/1.1", "GET /.. HTTP/1.1"] {
        let r = request(line);
        let t = resolve("root", &r, Entry::File, Entry::Missing);
        assert!(matches!(t, ResolvedTarget::NotFound));
    }
    assert!(has_parent_dir("/a/.."));
    assert!(!has_parent_dir("/a/..b/c.."));
    // A second slash is appended under the root, not put in its place.
    assert_eq!(candidate_path("root", "//etc/passwd"), Some("root//etc/passwd".to_string()));
    assert_eq!(candidate_path("root", "relative"), None);
    assert_eq!(candidate_path("root", "/"), Some("root".to_string()));
}

#[test]
fn paths_join_with_one_slash() {
    assert_eq!(join_path("root", "a"), "root/a");
    assert_eq!(join_path("root/", "a"), "root/a");
    assert_eq!(join_path("", "a"), "a");
    assert_eq!(index_path("root/docs"), "root/docs/index.html");
}

#[test]
fn file_head_is_framed() {
    assert_eq!(
        file_head("text/html", 1234),
        "HTTP/1.1 200 OK\nCache-Control: max-age=3600\nContent-Type: text/html; charset=utf-8\nContent-Length: 1234\r\n\r\n"
    );
    assert_eq!(
        file_head("image/png", 0),
        "HTTP/1.1 200 OK\nCache-Control: max-age=3600\nContent-Type: image/png\nContent-Length: 0\r\n\r\n"
    );
    assert_eq!(listing_head(42), "HTTP/1.1 200 OK\nContent-Type: text/html; charset=utf-8\nContent-Length: 42\r\n\r\n");
}

#[test]
fn error_responses_are_framed() {
    assert_eq!(
        bad_request("Malformed URI"),
        "HTTP/1.1 400 Bad Request\nContent-Type: text/plain\nContent-Length: 27\r\n\r\nBad Request: Malformed URI\n"
    );
    assert_eq!(
        not_found(NOT_FOUND_REASON),
        "HTTP/1.1 404 Not Found\nContent-Type: text/plain\nContent-Length: 42\r\n\r\nNot Found: Requested path does not exist.\n"
    );
    assert_eq!(not_found_page_head(7), "HTTP/1.1 404 Not Found\nContent-Type: text/html\nContent-Length: 7\r\n\r\n");
    assert_eq!(
        method_not_allowed(),
        "HTTP/1.1 405 Method Not Allowed\nAllow: GET\nContent-Type: text/plain\nContent-Length: 23\r\n\r\n405 Method Not Allowed\n"
    );
    // The length counts bytes, not characters.
    let r = bad_request("é");
    assert!(r.contains("Content-Length: 16\r\n"));
    assert_eq!(error_reply(404, "x", Some(9)), Some(not_found_page_head(9)));
    assert_eq!(error_reply(400, "x", None), Some(bad_request("x")));
    assert_eq!(error_reply(500, "x", None), None);
}

#[test]
fn directory_listing() {
    let names = vec!["a.txt".to_string(), "sub".to_string()];
    let page = directory_page("./", "./docs", &names);
    assert!(page.starts_with("<html><head><style>"));
    assert!(page.contains("Path: /docs</p>"));
    assert!(page.contains("<li><a href=\"..\">..</a></li>"));
    assert!(page.contains("<li><a href=\"/docs/a.txt\">a.txt</li><li><a href=\"/docs/sub\">sub</li>"));
    assert!(page.ends_with("</ol></body><html>"));
    let top = directory_page("root", "root", &names);
    assert!(!top.contains("href=\"..\""));
    assert!(top.contains("<li><a href=\"/a.txt\">a.txt</li>"));
    assert!(css().starts_with("<style>"));
}

#[test]
fn content_types() {
    assert_eq!(mime("html"), "text/html");
    assert_eq!(mime("png"), "image/png");
    assert_eq!(mime("unknown"), "application/octet-stream");
    assert_eq!(mime_type("root/a/index.html"), "text/html");
    assert_eq!(mime_type("root/.hidden"), "application/octet-stream");
    assert_eq!(mime_type("root/archive.tar.css"), "text/css");
    assert_eq!(mime_type("root.d/noext"), "application/octet-stream");
    assert_eq!(path_extension("a/b.js"), "js");
    assert_eq!(path_extension("a/b."), "");
    assert_eq!(path_extension("d/a.txt/"), "txt");
    assert_eq!(path_extension("d/a.txt//"), "txt");
    assert_eq!(path_extension("/"), "");
    assert_eq!(mime_type("d/index.html/"), "text/html");
}

#[test]
fn text_helpers() {
    let mut s = String::from("n=");
    push_decimal(&mut s, 18446744073709551615);
    assert_eq!(s, "n=18446744073709551615");
    assert!(contains_text("text/plain", "text"));
    assert!(!contains_text("image/png", "text"));
    assert!(contains_text("abc", ""));
    assert!(same_text("GET", "GET"));
    assert!(!same_text("GET", "GETS"));
}
