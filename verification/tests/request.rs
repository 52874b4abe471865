use static_server::request::{find_request_token, request_parser, RequestLine};
use static_server::resolver::{is_within, relative_target, resolve, Refusal, ResolvedPath, ServerRoot};
use static_server::text::{chars_of, decimal_text, whitespace};

fn components(parts: &[&str]) -> Vec<String> {
    parts.iter().map(|p| p.to_string()).collect()
}

#[test]
fn parser_takes_second_token_of_first_line() {
    let line = request_parser("GET /index.html HTTP/1.1\r\nHost: example\r\n\r\n");
    assert_eq!(line.path, Some("/index.html".to_string()));
}

#[test]
fn parser_ignores_later_lines() {
    let line = request_parser("GET\r\nPOST /other HTTP/1.1\r\n");
    assert_eq!(line.path, None);
}

#[test]
fn parser_decodes_percent_escapes() {
    let line = request_parser("GET /a%20b/%E2%82%AC HTTP/1.1\r\n");
    assert_eq!(line.path, Some("/a b/\u{20AC}".to_string()));
}

#[test]
fn parser_keeps_plus_sign() {
    let line = request_parser("GET /a+b HTTP/1.1\r\n");
    assert_eq!(line.path, Some("/a+b".to_string()));
}

#[test]
fn parser_keeps_malformed_escapes() {
    assert_eq!(request_parser("GET /50% HTTP/1.1").path, Some("/50%".to_string()));
    assert_eq!(request_parser("GET /%zz HTTP/1.1").path, Some("/%zz".to_string()));
}

#[test]
fn parser_names_no_path_when_decoding_is_not_text() {
    let line = request_parser("GET /%FF%FE HTTP/1.1\r\n");
    assert_eq!(line.path, None);
    assert_eq!(line.target(), "/");
}

#[test]
fn parser_names_no_path_without_second_token() {
    assert_eq!(request_parser("").path, None);
    assert_eq!(request_parser("GET").path, None);
    assert_eq!(request_parser("GET   \r\n/x").path, None);
    assert_eq!(request_parser("\nGET /x HTTP/1.1").path, None);
    assert_eq!(request_parser("   \t ").path, None);
}

#[test]
fn parser_splits_on_any_whitespace() {
    assert_eq!(request_parser("GET \t  /x\tHTTP/1.1").path, Some("/x".to_string()));
    assert_eq!(request_parser("  GET /y").path, Some("/y".to_string()));
    assert_eq!(request_parser("GET\u{3000}/z\u{00A0}HTTP/1.1").path, Some("/z".to_string()));
    assert_eq!(request_parser("GET\r/w\r\n").path, Some("/w".to_string()));
}

#[test]
fn parser_token_runs_to_end_of_text() {
    assert_eq!(request_parser("GET /x").path, Some("/x".to_string()));
    assert_eq!(request_parser("GET /x\0\0\0").path, Some("/x\0\0\0".to_string()));
}

#[test]
fn token_is_found_undecoded() {
    assert_eq!(find_request_token("GET /a%20b HTTP/1.1\r\n"), Some("/a%20b"));
    assert_eq!(find_request_token("GET"), None);
    assert_eq!(find_request_token("a b c d"), Some("b"));
    assert_eq!(find_request_token("\u{e9}t\u{e9} \u{20AC}uro x"), Some("\u{20AC}uro"));
}

#[test]
fn request_line_from_decoding_outcome() {
    let ok = RequestLine::from_decoded(Ok("/a".to_string()));
    assert_eq!(ok.path, Some("/a".to_string()));
    let err = RequestLine::from_decoded(String::from_utf8(vec![0xff]));
    assert_eq!(err.path, None);
}

#[test]
fn target_defaults_to_root() {
    assert_eq!(RequestLine { path: None }.target(), "/");
    assert_eq!(RequestLine { path: Some("/x/y".to_string()) }.target(), "/x/y");
    assert_eq!(RequestLine { path: Some(String::new()) }.target(), "");
}

#[test]
fn relative_target_strips_one_leading_separator() {
    assert_eq!(relative_target("/a/b"), "a/b");
    assert_eq!(relative_target("a/b"), "a/b");
    assert_eq!(relative_target("/"), "");
    assert_eq!(relative_target(""), "");
    assert_eq!(relative_target("//etc/passwd"), "/etc/passwd");
    assert_eq!(relative_target("/\u{e9}/"), "\u{e9}/");
    assert_eq!(relative_target("/../x"), "../x");
}

#[test]
fn containment_is_by_components() {
    let root = components(&["srv", "root"]);
    assert!(is_within(&root, &components(&["srv", "root"])));
    assert!(is_within(&root, &components(&["srv", "root", "a", "b"])));
    assert!(!is_within(&root, &components(&["srv", "root-evil"])));
    assert!(!is_within(&root, &components(&["srv", "root-evil", "a"])));
    assert!(!is_within(&root, &components(&["srv"])));
    assert!(!is_within(&root, &components(&[])));
    assert!(!is_within(&root, &components(&["etc", "root"])));
    assert!(!is_within(&root, &components(&["srv", "roo", "t"])));
}

#[test]
fn everything_is_within_the_filesystem_root() {
    let root = components(&[]);
    assert!(is_within(&root, &components(&[])));
    assert!(is_within(&root, &components(&["etc", "passwd"])));
}

#[test]
fn resolve_judges_canonicalization() {
    let root = ServerRoot { components: components(&["srv"]) };
    assert_eq!(resolve(&root, None), Err(Refusal::NotFound));
    assert_eq!(resolve(&root, Some(components(&["etc", "passwd"]))), Err(Refusal::Forbidden));
    assert_eq!(resolve(&root, Some(components(&["srv2"]))), Err(Refusal::Forbidden));
    assert_eq!(
        resolve(&root, Some(components(&["srv"]))),
        Ok(ResolvedPath { components: components(&["srv"]) })
    );
    assert_eq!(
        resolve(&root, Some(components(&["srv", "a.txt"]))),
        Ok(ResolvedPath { components: components(&["srv", "a.txt"]) })
    );
}

#[test]
fn resolved_path_duplicates() {
    let path = ResolvedPath { components: components(&["srv", "a", "b"]) };
    assert_eq!(path.duplicate(), path);
    let empty = ResolvedPath { components: components(&[]) };
    assert_eq!(empty.duplicate(), empty);
}

#[test]
fn refusals_have_status_and_reason() {
    assert_eq!(Refusal::NotFound.status_code(), 404);
    assert_eq!(Refusal::NotFound.reason(), "Not Found");
    assert_eq!(Refusal::Forbidden.status_code(), 403);
    assert_eq!(Refusal::Forbidden.reason(), "Forbidden");
}

#[test]
fn whitespace_is_the_unicode_property() {
    let mut code: u32 = 0;
    while code <= 0x10FFFF {
        if let Some(c) = char::from_u32(code) {
            assert_eq!(whitespace(c), c.is_whitespace(), "U+{:04X}", code);
        }
        code += 1;
    }
}

#[test]
fn whitespace_examples() {
    for c in [' ', '\t', '\n', '\r', '\u{0B}', '\u{0C}', '\u{85}', '\u{A0}', '\u{2028}', '\u{3000}'] {
        assert!(whitespace(c));
    }
    for c in ['a', '/', '\0', '\u{1F}', '\u{200B}', '\u{FEFF}', '%'] {
        assert!(!whitespace(c));
    }
}

#[test]
fn decimal_text_examples() {
    assert_eq!(decimal_text(0), "0");
    assert_eq!(decimal_text(7), "7");
    assert_eq!(decimal_text(10), "10");
    assert_eq!(decimal_text(404), "404");
    assert_eq!(decimal_text(1048576), "1048576");
    assert_eq!(decimal_text(u64::MAX), "18446744073709551615");
}

#[test]
fn decimal_text_agrees_with_display() {
    let mut n: u64 = 0;
    while n < 20000 {
        assert_eq!(decimal_text(n), format!("{}", n));
        n += 1;
    }
    let mut m: u64 = 1;
    while m < u64::MAX / 7 {
        assert_eq!(decimal_text(m), format!("{}", m));
        m = m * 7 + 3;
    }
}

#[test]
fn chars_of_gives_the_characters() {
    assert_eq!(chars_of(""), Vec::<char>::new());
    assert_eq!(chars_of("a\u{e9}\u{20AC}"), vec!['a', '\u{e9}', '\u{20AC}']);
}
