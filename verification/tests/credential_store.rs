use deeprs::credentials::{get_api_key, save_entered_key, ConfigError, KeyLookup, KeyStore};

#[test]
fn stored_key_is_returned_verbatim() {
    let store = KeyStore {
        home_found: true,
        key_file: Some(String::from("abc-123-KEY\n")),
    };
    match get_api_key(&store) {
        Ok(KeyLookup::Stored(key)) => assert_eq!(key, "abc-123-KEY\n"),
        other => panic!("expected the stored key, got {:?}", discriminant_name(&other)),
    }
}

#[test]
fn absent_key_file_asks_for_a_prompt() {
    let store = KeyStore { home_found: true, key_file: None };
    assert!(matches!(get_api_key(&store), Ok(KeyLookup::NeedsPrompt)));
}

#[test]
fn no_home_directory_is_an_error() {
    let store = KeyStore { home_found: false, key_file: None };
    assert!(matches!(get_api_key(&store), Err(ConfigError::NoHomeDirectory)));
}

#[test]
fn entered_key_is_persisted_and_reused_without_reprompting() {
    let mut store = KeyStore { home_found: true, key_file: None };
    assert!(matches!(get_api_key(&store), Ok(KeyLookup::NeedsPrompt)));

    let returned = save_entered_key(&mut store, String::from("entered-key\n"));
    assert_eq!(returned, "entered-key\n");
    assert_eq!(store.key_file.as_deref(), Some("entered-key\n"));

    match get_api_key(&store) {
        Ok(KeyLookup::Stored(key)) => assert_eq!(key, "entered-key\n"),
        other => panic!("expected the saved key, got {:?}", discriminant_name(&other)),
    }
}

#[test]
fn error_messages_name_the_failure() {
    assert_eq!(
        ConfigError::NoHomeDirectory.message(),
        "Failed getting home directory"
    );
    assert_eq!(ConfigError::StdinReadFailure.message(), "Failed to read input");
}

fn discriminant_name(r: &Result<KeyLookup, ConfigError>) -> &'static str {
    match r {
        Ok(KeyLookup::Stored(_)) => "Ok(Stored)",
        Ok(KeyLookup::NeedsPrompt) => "Ok(NeedsPrompt)",
        Err(ConfigError::NoHomeDirectory) => "Err(NoHomeDirectory)",
        Err(ConfigError::StdinReadFailure) => "Err(StdinReadFailure)",
    }
}
