//! Looking up and persisting the API key.
//!
//! The key lives in one file in the user's home directory. The file system
//! itself stays outside the library: a [`KeyStore`] value carries what the
//! caller observed (whether a home directory exists, and the key file's
//! content if the file could be read), and the functions here decide what
//! follows from it. The caller performs the actual prompt and write, and
//! mirrors a successful write by [`save_entered_key`].

use vstd::prelude::*;

verus! {

/// What the caller observed of the environment: whether a home directory
/// could be resolved, and the content of the key file there, or `None`
/// when the file is absent or unreadable.
pub struct KeyStore {
    pub home_found: bool,
    pub key_file: Option<String>,
}

/// Why an API key could not be obtained.
#[derive(Debug, PartialEq, Eq, Structural)]
pub enum ConfigError {
    /// No home directory could be resolved; there is no fallback location.
    NoHomeDirectory,
    /// The user had to be prompted, but no line could be read.
    StdinReadFailure,
}

impl ConfigError {
    /// A short diagnostic line for this error.
    pub fn message(&self) -> (r: String)
        ensures
            *self is NoHomeDirectory ==> r@ == "Failed getting home directory"@,
            *self is StdinReadFailure ==> r@ == "Failed to read input"@,
    {
        match self {
            ConfigError::NoHomeDirectory => "Failed getting home directory".to_owned(),
            ConfigError::StdinReadFailure => "Failed to read input".to_owned(),
        }
    }
}

/// The outcome of a key lookup: either the stored key, verbatim, or the
/// instruction to prompt the user for one.
pub enum KeyLookup {
    Stored(String),
    NeedsPrompt,
}

/// What [`get_api_key`] returns for a given store: the stored content
/// verbatim when the file is present, a prompt instruction when it is
/// absent, and an error when there is no home directory.
pub open spec fn spec_get_api_key(store: KeyStore) -> Result<KeyLookup, ConfigError> {
    if !store.home_found {
        Err(ConfigError::NoHomeDirectory)
    } else {
        match store.key_file {
            Some(key) => Ok(KeyLookup::Stored(key)),
            None => Ok(KeyLookup::NeedsPrompt),
        }
    }
}

/// The store after the entered line has been persisted as the key file.
pub open spec fn spec_saved_store(store: KeyStore, line: String) -> KeyStore {
    KeyStore { home_found: store.home_found, key_file: Some(line) }
}

/// Looks the API key up in the given store. A stored key is returned exactly
/// as it stands in the file, trailing newline included; nothing is trimmed.
pub fn get_api_key(store: &KeyStore) -> (r: Result<KeyLookup, ConfigError>)
    ensures
        r == spec_get_api_key(*store),
{
    if !store.home_found {
        Err(ConfigError::NoHomeDirectory)
    } else {
        match &store.key_file {
            Some(key) => Ok(KeyLookup::Stored(key.clone())),
            None => Ok(KeyLookup::NeedsPrompt),
        }
    }
}

/// Records that the entered line was written to the key file, unmodified,
/// and returns it as the key to use for this run.
pub fn save_entered_key(store: &mut KeyStore, line: String) -> (r: String)
    requires
        old(store).home_found,
    ensures
        *final(store) == spec_saved_store(*old(store), line),
        r == line,
{
    store.key_file = Some(line.clone());
    line
}

/// Law: with a key file present, the lookup returns that file's exact
/// content and does not ask for a prompt.
pub proof fn lemma_stored_key_returned_verbatim(store: KeyStore, key: String)
    requires
        store.home_found,
        store.key_file == Some(key),
    ensures
        spec_get_api_key(store) == Ok::<KeyLookup, ConfigError>(KeyLookup::Stored(key)),
{
}

/// Law: with the key file absent, the lookup asks for a prompt; once the
/// entered line is persisted, a later lookup on the unchanged store returns
/// that same line without asking again.
pub proof fn lemma_prompt_then_reuse(store: KeyStore, line: String)
    requires
        store.home_found,
        store.key_file is None,
    ensures
        spec_get_api_key(store) == Ok::<KeyLookup, ConfigError>(KeyLookup::NeedsPrompt),
        spec_get_api_key(spec_saved_store(store, line)) == Ok::<KeyLookup, ConfigError>(
            KeyLookup::Stored(line),
        ),
{
}

} // verus!
