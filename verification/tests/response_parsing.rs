use deeprs::response::{handle_response, parse_translations, RequestError};

const CANNED: &str = r#"{"translations":[{"detected_source_language":"EN","text":"Hallo"}]}"#;

#[test]
fn canned_success_body_yields_one_translation() {
    let result = handle_response(200, CANNED).expect("a 200 with a well-formed body parses");
    assert_eq!(result.translations.len(), 1);
    assert_eq!(result.translations[0].detected_source_language, "EN");
    assert_eq!(result.translations[0].text, "Hallo");
}

#[test]
fn non_success_status_reports_the_status_code() {
    let r = handle_response(456, CANNED);
    assert!(matches!(r, Err(RequestError::NonSuccessStatus(456))));
}

#[test]
fn malformed_body_on_success_status_is_a_parse_error() {
    let r = handle_response(200, "{\"translations\": oops");
    assert!(matches!(r, Err(RequestError::MalformedResponse)));
}

#[test]
fn whitespace_between_tokens_is_accepted() {
    let body = " {\n\t\"translations\" : [ { \"detected_source_language\" : \"DE\" ,\r\n\"text\" : \"Hi\" } ] } ";
    let t = parse_translations(body).expect("whitespace is insignificant");
    assert_eq!(t.translations.len(), 1);
    assert_eq!(t.translations[0].detected_source_language, "DE");
    assert_eq!(t.translations[0].text, "Hi");
}

#[test]
fn members_may_come_in_either_order() {
    let body = r#"{"translations":[{"text":"Hallo","detected_source_language":"EN"}]}"#;
    let t = parse_translations(body).expect("reversed member order parses");
    assert_eq!(t.translations[0].detected_source_language, "EN");
    assert_eq!(t.translations[0].text, "Hallo");
}

#[test]
fn several_translations_keep_their_order() {
    let body = r#"{"translations":[
        {"detected_source_language":"EN","text":"eins"},
        {"detected_source_language":"FR","text":"zwei"},
        {"text":"drei","detected_source_language":"NL"}
    ]}"#;
    let t = parse_translations(body).expect("a list of translations parses");
    let got: Vec<(&str, &str)> = t
        .translations
        .iter()
        .map(|tr| (tr.detected_source_language.as_str(), tr.text.as_str()))
        .collect();
    assert_eq!(got, vec![("EN", "eins"), ("FR", "zwei"), ("NL", "drei")]);
}

#[test]
fn empty_translation_list_parses() {
    let t = parse_translations(r#"{"translations":[]}"#).expect("an empty list parses");
    assert!(t.translations.is_empty());
}

#[test]
fn string_escapes_are_decoded() {
    let body = r#"{"translations":[{"detected_source_language":"EN","text":"a\"b\\c\/d\be\ff\ng\rh\ti"}]}"#;
    let t = parse_translations(body).expect("escapes parse");
    assert_eq!(t.translations[0].text, "a\"b\\c/d\u{8}e\u{c}f\ng\rh\ti");
}

#[test]
fn non_ascii_text_passes_through() {
    let body = "{\"translations\":[{\"detected_source_language\":\"JA\",\"text\":\"こんにちは\"}]}";
    let t = parse_translations(body).expect("raw non-ASCII content parses");
    assert_eq!(t.translations[0].text, "こんにちは");
}

#[test]
fn truncated_bodies_are_rejected() {
    for body in [
        "",
        "{",
        "{\"translations\"",
        "{\"translations\":",
        "{\"translations\":[",
        "{\"translations\":[{\"detected_source_language\":\"EN\",\"text\":\"Hallo\"}",
        "{\"translations\":[{\"detected_source_language\":\"EN\",\"text\":\"Hallo\"}]",
        "{\"translations\":[{\"detected_source_language\":\"EN\",\"text\":\"Hallo",
    ] {
        assert!(parse_translations(body).is_none(), "accepted truncated body: {body:?}");
    }
}

#[test]
fn wrong_shapes_are_rejected() {
    for body in [
        // wrong top-level key
        r#"{"translation":[{"detected_source_language":"EN","text":"Hallo"}]}"#,
        // wrong member key
        r#"{"translations":[{"detected_language":"EN","text":"Hallo"}]}"#,
        // the same member twice
        r#"{"translations":[{"text":"a","text":"b"}]}"#,
        // only one member
        r#"{"translations":[{"text":"Hallo"}]}"#,
        // a non-string value
        r#"{"translations":[{"detected_source_language":"EN","text":7}]}"#,
        // trailing input after the document
        r#"{"translations":[]} tail"#,
        // trailing comma in the array
        r#"{"translations":[{"detected_source_language":"EN","text":"Hallo"},]}"#,
        // an unknown escape
        r#"{"translations":[{"detected_source_language":"EN","text":"\q"}]}"#,
        // a raw control character inside a string
        "{\"translations\":[{\"detected_source_language\":\"EN\",\"text\":\"a\u{1}b\"}]}",
        // not JSON at all
        "plain text",
    ] {
        assert!(parse_translations(body).is_none(), "accepted malformed body: {body:?}");
    }
}

#[test]
fn request_error_messages_name_the_failure() {
    assert_eq!(
        RequestError::NonSuccessStatus(456).message(),
        "Status Code: 456"
    );
    assert_eq!(RequestError::NonSuccessStatus(0).message(), "Status Code: 0");
    assert_eq!(
        RequestError::NonSuccessStatus(65535).message(),
        "Status Code: 65535"
    );
    assert_eq!(
        RequestError::Transport(String::from("connection refused")).message(),
        "Request failed: connection refused"
    );
    assert_eq!(
        RequestError::MalformedResponse.message(),
        "The response could not be parsed"
    );
}

#[test]
fn transport_errors_carry_their_cause() {
    // The variant the caller uses when the request never reached the service.
    let e = RequestError::Transport(String::from("connection refused"));
    assert!(matches!(e, RequestError::Transport(ref cause) if cause == "connection refused"));
}
