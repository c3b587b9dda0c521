//! Building the form-encoded body of a translation request.
//!
//! The body is the concatenation `auth_key=<key>&text=<text>&target_lang=<target>`,
//! followed by `&source_lang=<source>` exactly when a source language was
//! supplied. Field values are concatenated verbatim, without percent-encoding:
//! a value that itself contains `&` or `=` corrupts the body. That limitation
//! is deliberate and documented here.

use vstd::prelude::*;
use vstd::string::StringExecFns;

verus! {

/// The form-encoded request body for the given field values: the three
/// mandatory fields in their fixed order, then `source_lang` last when a
/// source language is present.
pub open spec fn encoded_body(
    api_key: Seq<char>,
    text: Seq<char>,
    target_language: Seq<char>,
    source_language: Option<Seq<char>>,
) -> Seq<char> {
    let base = "auth_key="@ + api_key + "&text="@ + text + "&target_lang="@ + target_language;
    match source_language {
        Some(source) => base + "&source_lang="@ + source,
        None => base,
    }
}

/// Everything a single translation request is built from. `search_string`
/// starts empty and receives the encoded body.
pub struct Input {
    pub text: String,
    pub api_key: String,
    pub source_language: Option<String>,
    pub target_language: String,
    pub search_string: String,
}

impl Input {
    /// A fresh request with an empty body.
    pub fn new(
        text: String,
        api_key: String,
        target_language: String,
        source_language: Option<String>,
    ) -> (r: Input)
        ensures
            r.text == text,
            r.api_key == api_key,
            r.target_language == target_language,
            r.source_language == source_language,
            r.search_string@ == Seq::<char>::empty(),
    {
        Input {
            text,
            api_key,
            target_language,
            source_language,
            search_string: String::new(),
        }
    }

    /// Appends the encoded body for this request's fields to `search_string`;
    /// every other field is left as it was.
    pub fn build_search_string(&mut self)
        ensures
            final(self).search_string@ == old(self).search_string@ + encoded_body(
                old(self).api_key@,
                old(self).text@,
                old(self).target_language@,
                old(self).source_language.deep_view(),
            ),
            final(self).text == old(self).text,
            final(self).api_key == old(self).api_key,
            final(self).target_language == old(self).target_language,
            final(self).source_language == old(self).source_language,
    {
        self.search_string.append("auth_key=");
        let key: &str = self.api_key.as_str();
        self.search_string.append(key);
        self.search_string.append("&text=");
        let text: &str = self.text.as_str();
        self.search_string.append(text);
        self.search_string.append("&target_lang=");
        let target: &str = self.target_language.as_str();
        self.search_string.append(target);
        if let Some(source_language) = &self.source_language {
            self.search_string.append("&source_lang=");
            let source: &str = source_language.as_str();
            self.search_string.append(source);
        }
        proof {
            assert(final(self).search_string@ =~= old(self).search_string@ + encoded_body(
                old(self).api_key@,
                old(self).text@,
                old(self).target_language@,
                old(self).source_language.deep_view(),
            ));
        }
    }
}

/// Law: a body built without a source language is exactly the fields
/// `auth_key`, `text` and `target_lang`, in that order, and nothing else;
/// in particular no `source_lang` field is appended.
pub proof fn lemma_body_without_source(api_key: Seq<char>, text: Seq<char>, target_language: Seq<char>)
    ensures
        encoded_body(api_key, text, target_language, None) == "auth_key="@ + api_key + "&text="@
            + text + "&target_lang="@ + target_language,
{
}

/// Law: a body built with a source language is the body without one,
/// followed by the `source_lang` field as the last field.
pub proof fn lemma_body_with_source(
    api_key: Seq<char>,
    text: Seq<char>,
    target_language: Seq<char>,
    source_language: Seq<char>,
)
    ensures
        encoded_body(api_key, text, target_language, Some(source_language)) == encoded_body(
            api_key,
            text,
            target_language,
            None,
        ) + "&source_lang="@ + source_language,
{
}

} // verus!
