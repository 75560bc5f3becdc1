use line_filter::classify::FilterRequest;
use line_filter::errors::ContentTypeError;
use line_filter::filter;
use line_filter::media::{decode_kind, MediaKind};
use line_filter::codec::{decode_response, encode_response};
use line_filter::negotiate::Negotiated;
use line_filter::text::{join_lines, split_lines};
use line_filter::RegexWrapper;

fn strings(items: &[&str]) -> Vec<String> {
    items.iter().map(|s| s.to_string()).collect()
}

fn request(lines: &[&str], matcher: &str, exclude: Option<&str>) -> FilterRequest {
    FilterRequest::build(strings(lines), matcher, exclude).expect("patterns must compile")
}

#[test]
fn classify_example_partition() {
    let r = filter(request(&["abc", "ax", "b"], "^a", Some("^ab")));
    assert_eq!(r.excluded, strings(&["abc"]));
    assert_eq!(r.matching, strings(&["ax"]));
    assert_eq!(r.not_matching, strings(&["b"]));
}

#[test]
fn classify_exclude_wins_over_matching() {
    // every line here matches the matcher; the excluded one never shows up
    // under matching
    let r = filter(request(&["aa", "ab", "ac"], "^a", Some("b")));
    assert_eq!(r.excluded, strings(&["ab"]));
    assert_eq!(r.matching, strings(&["aa", "ac"]));
    assert_eq!(r.not_matching, strings(&[]));
}

#[test]
fn classify_without_exclude_pattern() {
    let r = filter(request(&["abc", "b"], "^a", None));
    assert_eq!(r.excluded, strings(&[]));
    assert_eq!(r.matching, strings(&["abc"]));
    assert_eq!(r.not_matching, strings(&["b"]));
}

#[test]
fn classify_no_lines_gives_empty_buckets() {
    let r = filter(request(&[], "^a", Some("^ab")));
    assert!(r.excluded.is_empty());
    assert!(r.matching.is_empty());
    assert!(r.not_matching.is_empty());
}

#[test]
fn no_content_when_nothing_matches_plain_text() {
    let r = filter(request(&[], "^a", Some("^ab")));
    let rendered = r.respond_to(&strings(&["text/plain"]));
    assert!(matches!(rendered, Negotiated::NoContent));
    assert_eq!(rendered.status(), 204);
}

#[test]
fn plain_text_renders_matching_lines_joined() {
    let r = filter(request(&["ax", "b", "ay"], "^a", None));
    let rendered = r.respond_to(&strings(&["text/plain"]));
    assert_eq!(rendered.status(), 200);
    match rendered {
        Negotiated::Plain { body } => assert_eq!(body, "ax\nay"),
        _ => panic!("expected the plain rendering"),
    }
}

#[test]
fn structured_rendering_is_exact() {
    let r = filter(request(&["ax", "b"], "^a", None));
    let rendered = r.respond_to(&strings(&["application/json"]));
    assert_eq!(rendered.status(), 200);
    match rendered {
        Negotiated::Structured { body } => {
            assert_eq!(body, "{\"matching\":[\"ax\"],\"excluded\":[],\"notMatching\":[\"b\"]}");
        }
        _ => panic!("expected the structured rendering"),
    }
}

#[test]
fn first_recognized_accept_wins() {
    let r = filter(request(&["ax"], "^a", None));
    let rendered = r.respond_to(&strings(&["application/xml", "text/plain", "application/json"]));
    match rendered {
        Negotiated::Plain { body } => assert_eq!(body, "ax"),
        _ => panic!("expected the plain rendering"),
    }
}

#[test]
fn unrecognized_accept_list_is_not_acceptable() {
    let r = filter(request(&["ax"], "^a", None));
    let rendered = r.respond_to(&strings(&["image/png"]));
    assert!(matches!(rendered, Negotiated::NotAcceptable));
    assert_eq!(rendered.status(), 406);
}

#[test]
fn empty_accept_list_is_not_acceptable() {
    let r = filter(request(&["ax"], "^a", None));
    let rendered = r.respond_to(&strings(&[]));
    assert!(matches!(rendered, Negotiated::NotAcceptable));
}

#[test]
fn content_type_dispatch() {
    assert!(matches!(decode_kind(Some("application/json")), MediaKind::Json));
    assert!(matches!(decode_kind(Some("application/json; charset=utf-8")), MediaKind::Json));
    assert!(matches!(decode_kind(Some("Application/JSON; charset=utf-8")), MediaKind::Json));
    assert!(matches!(decode_kind(Some("text/plain")), MediaKind::Text));
    assert!(matches!(decode_kind(Some(" text/plain ; charset=utf-8")), MediaKind::Text));
    assert!(matches!(decode_kind(Some("application/xml")), MediaKind::Other));
    assert!(matches!(decode_kind(Some("text/plainer")), MediaKind::Other));
    assert!(matches!(decode_kind(None), MediaKind::Other));
}

#[test]
fn unsupported_media_type_status() {
    assert_eq!(ContentTypeError::UnsupportedMediaType.status_code(), 415);
}

#[test]
fn wrapped_parser_error_keeps_its_status() {
    assert_eq!((ContentTypeError::Other { status: 400 }).status_code(), 400);
}

#[test]
fn invalid_pattern_is_a_bad_request() {
    let err = match FilterRequest::build(strings(&["a"]), "(", None) {
        Err(e) => e,
        Ok(_) => panic!("an unbalanced group must be rejected"),
    };
    assert_eq!(err.status_code(), 400);
    let err = match FilterRequest::build(strings(&["a"]), "^a", Some("(")) {
        Err(e) => e,
        Ok(_) => panic!("an unbalanced group must be rejected"),
    };
    assert_eq!(err.status_code(), 400);
    assert!(RegexWrapper::new("[").is_err());
    assert!(RegexWrapper::new("^a$").is_ok());
}

#[test]
fn round_trip_structured_document() {
    let r = filter(request(&["a\"x", "b\\y", "plain"], "a", Some("b")));
    let encoded = encode_response(&r);
    let decoded = decode_response(encoded.as_str()).expect("own rendering must decode");
    assert_eq!(decoded.matching, r.matching);
    assert_eq!(decoded.excluded, r.excluded);
    assert_eq!(decoded.not_matching, r.not_matching);
}

#[test]
fn round_trip_empty_buckets() {
    let r = filter(request(&[], "a", None));
    let encoded = encode_response(&r);
    assert_eq!(encoded, "{\"matching\":[],\"excluded\":[],\"notMatching\":[]}");
    let decoded = decode_response(encoded.as_str()).expect("own rendering must decode");
    assert!(decoded.matching.is_empty());
    assert!(decoded.excluded.is_empty());
    assert!(decoded.not_matching.is_empty());
}

#[test]
fn decode_rejects_malformed_documents() {
    assert!(decode_response("").is_none());
    assert!(decode_response("not a document").is_none());
    assert!(decode_response("{\"matching\":[\"a\"]}").is_none());
    assert!(decode_response("{\"matching\":[],\"excluded\":[],\"notMatching\":[]} ").is_none());
}

#[test]
fn escaping_is_reversed_exactly() {
    let r = filter(request(&["say \"hi\"\\now"], ".", None));
    let encoded = encode_response(&r);
    assert_eq!(
        encoded,
        "{\"matching\":[\"say \\\"hi\\\"\\\\now\"],\"excluded\":[],\"notMatching\":[]}"
    );
    let decoded = decode_response(encoded.as_str()).expect("own rendering must decode");
    assert_eq!(decoded.matching, strings(&["say \"hi\"\\now"]));
}

#[test]
fn split_lines_matches_line_semantics() {
    assert_eq!(split_lines("a\r\nb\nc"), strings(&["a", "b", "c"]));
    assert_eq!(split_lines("a\nb\n"), strings(&["a", "b"]));
    assert_eq!(split_lines(""), strings(&[]));
    assert_eq!(split_lines("\n"), strings(&[""]));
    assert_eq!(split_lines("a\r"), strings(&["a\r"]));
    assert_eq!(split_lines("a\n\nb"), strings(&["a", "", "b"]));
}

#[test]
fn join_lines_inserts_single_separators() {
    assert_eq!(join_lines(&strings(&[])), "");
    assert_eq!(join_lines(&strings(&["x"])), "x");
    assert_eq!(join_lines(&strings(&["x", "y", "z"])), "x\ny\nz");
}

#[test]
fn plain_text_request_path() {
    let req = FilterRequest::from_text("abc\nax\nb", "^a", Some("^ab"))
        .expect("patterns must compile");
    let r = filter(req);
    assert_eq!(r.excluded, strings(&["abc"]));
    assert_eq!(r.matching, strings(&["ax"]));
    assert_eq!(r.not_matching, strings(&["b"]));
}
