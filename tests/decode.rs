use rup::decode::{decode_percent, MALFORMED_URI};

#[test]
fn test_decode() -> Result<(), &'static str> {
    assert_eq!(decode_percent("hello%20world")?, "hello world");
    assert_eq!(decode_percent("%ec%95%84%eb%a7%88%ec%a1%b4")?, "아마존");
    assert_eq!(decode_percent("/%ec%95%84%eb%a7%88%ec%a1%b4")?, "/아마존");
    assert_eq!(decode_percent("%ec%95%84%eb%a7%88%ec%a1%b4/")?, "아마존/");
    assert_eq!(decode_percent("/%ec%95%84%eb%a7%88%ec%a1%b4/")?, "/아마존/");
    Ok(())
}

#[test]
fn test_invalid() {
    assert_eq!(decode_percent("%hello").unwrap_err(), MALFORMED_URI);
    assert_eq!(decode_percent("%1%1%3").unwrap_err(), MALFORMED_URI);
    assert_eq!(decode_percent("%ff").unwrap_err(), MALFORMED_URI);
}

#[test]
fn path_without_escapes_decodes_to_itself() {
    for p in ["/", "/index.html", "/a/b-c_d.txt", "", "/dir/", "/ünïcode/页"] {
        assert_eq!(decode_percent(p).unwrap(), p);
    }
}

#[test]
fn encoded_text_decodes_back() {
    // Every byte escaped, upper case.
    assert_eq!(decode_percent("%EC%95%84%EB%A7%88%EC%A1%B4").unwrap(), "아마존");
    // Unreserved characters kept, the rest escaped.
    assert_eq!(decode_percent("/docs/a%20b%C3%A9.txt").unwrap(), "/docs/a bé.txt");
    assert_eq!(decode_percent("%F0%9F%98%80").unwrap(), "😀");
    assert_eq!(decode_percent("%25").unwrap(), "%");
}

#[test]
fn truncated_escape_is_malformed() {
    assert_eq!(decode_percent("%a"), Err(MALFORMED_URI));
    assert_eq!(decode_percent("%"), Err(MALFORMED_URI));
    assert_eq!(decode_percent("/x%4"), Err(MALFORMED_URI));
}

#[test]
fn non_hex_escape_is_malformed() {
    assert_eq!(decode_percent("%zz"), Err(MALFORMED_URI));
    assert_eq!(decode_percent("%+1"), Err(MALFORMED_URI));
    assert_eq!(decode_percent("/a%g0"), Err(MALFORMED_URI));
    assert_eq!(decode_percent("%é1"), Err(MALFORMED_URI));
}

#[test]
fn invalid_utf8_run_is_malformed() {
    assert_eq!(decode_percent("%ff"), Err(MALFORMED_URI));
    assert_eq!(decode_percent("%e9"), Err(MALFORMED_URI));
    assert_eq!(decode_percent("/x%80"), Err(MALFORMED_URI));
    // A literal character closes the run, so a character cannot be split
    // around it.
    assert_eq!(decode_percent("%C3a%A9"), Err(MALFORMED_URI));
}

#[test]
fn literal_scenarios() {
    assert_eq!(decode_percent("hello%20world"), Ok("hello world".to_string()));
    assert_eq!(decode_percent("%ec%95%84%eb%a7%88%ec%a1%b4"), Ok("아마존".to_string()));
}

#[test]
fn mixed_encodings_decode_alike() {
    // Literal, lower-case and upper-case escapes of the same text.
    let forms = ["/é a", "/%c3%a9%20a", "/%C3%A9 a", "%2F%C3%a9%20%61"];
    for f in forms {
        assert_eq!(decode_percent(f).unwrap(), "/é a");
    }
    assert_ne!(decode_percent("/%c3%a9").unwrap(), decode_percent("/%c3%a8").unwrap());
}
