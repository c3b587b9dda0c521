use deeprs::request::Input;

#[test]
fn body_without_source_language_has_three_fields_in_order() {
    let mut input = Input::new(
        String::from("hello"),
        String::from("KEY123"),
        String::from("DE"),
        None,
    );
    input.build_search_string();
    assert_eq!(input.search_string, "auth_key=KEY123&text=hello&target_lang=DE");
}

#[test]
fn body_with_source_language_appends_it_last() {
    let mut input = Input::new(
        String::from("hello"),
        String::from("KEY123"),
        String::from("DE"),
        Some(String::from("EN")),
    );
    input.build_search_string();
    assert_eq!(
        input.search_string,
        "auth_key=KEY123&text=hello&target_lang=DE&source_lang=EN"
    );
}

#[test]
fn body_with_empty_text_still_has_the_text_field() {
    let mut input = Input::new(String::new(), String::from("k"), String::from("FR"), None);
    input.build_search_string();
    assert_eq!(input.search_string, "auth_key=k&text=&target_lang=FR");
}

#[test]
fn field_values_are_concatenated_verbatim() {
    // Values are not percent-encoded; a `&` in the text lands in the body
    // as it is. This documents the limitation rather than hiding it.
    let mut input = Input::new(
        String::from("a&b=c"),
        String::from("k"),
        String::from("DE"),
        None,
    );
    input.build_search_string();
    assert_eq!(input.search_string, "auth_key=k&text=a&b=c&target_lang=DE");
}

#[test]
fn new_input_keeps_its_fields_and_starts_with_an_empty_body() {
    let input = Input::new(
        String::from("text"),
        String::from("key"),
        String::from("NL"),
        Some(String::from("IT")),
    );
    assert_eq!(input.text, "text");
    assert_eq!(input.api_key, "key");
    assert_eq!(input.target_language, "NL");
    assert_eq!(input.source_language.as_deref(), Some("IT"));
    assert_eq!(input.search_string, "");
}

#[test]
fn building_twice_appends_the_body_twice() {
    let mut input = Input::new(String::from("t"), String::from("k"), String::from("DE"), None);
    input.build_search_string();
    input.build_search_string();
    assert_eq!(
        input.search_string,
        "auth_key=k&text=t&target_lang=DEauth_key=k&text=t&target_lang=DE"
    );
}
