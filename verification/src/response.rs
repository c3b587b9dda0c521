//! Parsing the translation endpoint's JSON response.
//!
//! A successful response carries a document of the fixed shape
//! `{ "translations": [ { "detected_source_language": <string>, "text": <string> }, ... ] }`.
//! The parser here accepts exactly that shape: whitespace is allowed between
//! tokens, string values may use the single-character escapes
//! (`\" \\ \/ \b \f \n \r \t`), and the two members of a translation object
//! may come in either order. Anything else — other escapes, control
//! characters in strings, missing or extra members, trailing input — is
//! rejected as malformed.
//!
//! The grammar is written once as a deterministic specification-level parser
//! over `Seq<char>`, and every executable function is proved to return
//! exactly what the specification parser returns.

use vstd::prelude::*;
use vstd::string::StrSliceExecFns;
use vstd::string::StringExecFns;

verus! {

/// One entry of the response: the language the service detected, and the
/// translated text.
#[derive(Debug)]
pub struct Translation {
    pub detected_source_language: String,
    pub text: String,
}

impl View for Translation {
    type V = (Seq<char>, Seq<char>);

    open spec fn view(&self) -> (Seq<char>, Seq<char>) {
        (self.detected_source_language@, self.text@)
    }
}

/// The whole response body: a list of translations.
#[derive(Debug)]
pub struct Translations {
    pub translations: Vec<Translation>,
}

/// The views of a sequence of translations, in order.
pub open spec fn translation_views(items: Seq<Translation>) -> Seq<(Seq<char>, Seq<char>)> {
    items.map_values(|t: Translation| t@)
}

impl View for Translations {
    type V = Seq<(Seq<char>, Seq<char>)>;

    open spec fn view(&self) -> Seq<(Seq<char>, Seq<char>)> {
        translation_views(self.translations@)
    }
}

/// Why no translation result was produced.
#[derive(Debug)]
pub enum RequestError {
    /// The request never reached the service; the payload describes the cause.
    Transport(String),
    /// The service answered with a status other than 200.
    NonSuccessStatus(u16),
    /// The service answered 200 but the body is not a well-formed response
    /// document.
    MalformedResponse,
}

/// The decimal digit for a value below ten.
pub open spec fn dec_digit(d: int) -> char {
    if d == 0 {
        '0'
    } else if d == 1 {
        '1'
    } else if d == 2 {
        '2'
    } else if d == 3 {
        '3'
    } else if d == 4 {
        '4'
    } else if d == 5 {
        '5'
    } else if d == 6 {
        '6'
    } else if d == 7 {
        '7'
    } else if d == 8 {
        '8'
    } else {
        '9'
    }
}

/// The decimal notation of a non-negative number, without leading zeroes.
pub open spec fn spec_decimal(n: int) -> Seq<char>
    decreases n,
{
    if n < 10 {
        seq![dec_digit(n)]
    } else {
        spec_decimal(n / 10) + seq![dec_digit(n % 10)]
    }
}

/// Appends the decimal notation of `n`.
fn push_decimal(out: &mut String, n: u16)
    ensures
        final(out)@ == old(out)@ + spec_decimal(n as int),
    decreases n,
{
    if n >= 10 {
        push_decimal(out, n / 10);
        let d = digit_char(n % 10);
        proof {
            assert((old(out)@ + spec_decimal(n as int / 10)) + seq![dec_digit(n as int % 10)]
                =~= old(out)@ + spec_decimal(n as int));
        }
        push_char(out, d);
    } else {
        let d = digit_char(n);
        push_char(out, d);
    }
}

/// The executable counterpart of [`dec_digit`].
fn digit_char(d: u16) -> (r: char)
    requires
        d < 10,
    ensures
        r == dec_digit(d as int),
{
    if d == 0 {
        '0'
    } else if d == 1 {
        '1'
    } else if d == 2 {
        '2'
    } else if d == 3 {
        '3'
    } else if d == 4 {
        '4'
    } else if d == 5 {
        '5'
    } else if d == 6 {
        '6'
    } else if d == 7 {
        '7'
    } else if d == 8 {
        '8'
    } else {
        '9'
    }
}

impl RequestError {
    /// The diagnostic line for this outcome: the status line the user sees
    /// for a non-success status, and a short failure description otherwise.
    pub fn message(&self) -> (r: String)
        ensures
            *self matches RequestError::Transport(cause) ==> r@ == "Request failed: "@ + cause@,
            *self matches RequestError::NonSuccessStatus(code) ==> r@ == "Status Code: "@
                + spec_decimal(code as int),
            *self is MalformedResponse ==> r@ == "The response could not be parsed"@,
    {
        match self {
            RequestError::Transport(cause) => {
                let mut line = String::from_str("Request failed: ");
                line.append(cause.as_str());
                line
            },
            RequestError::NonSuccessStatus(code) => {
                let mut line = String::from_str("Status Code: ");
                push_decimal(&mut line, *code);
                line
            },
            RequestError::MalformedResponse => String::from_str(
                "The response could not be parsed",
            ),
        }
    }
}

/// JSON insignificant whitespace.
pub open spec fn is_json_ws(c: char) -> bool {
    c == ' ' || c == '\n' || c == '\r' || c == '\t'
}

/// The first position at or after `i` that does not hold whitespace.
pub open spec fn spec_skip_ws(s: Seq<char>, i: int) -> int
    decreases s.len() - i,
{
    if 0 <= i < s.len() && is_json_ws(s[i]) {
        spec_skip_ws(s, i + 1)
    } else {
        i
    }
}

/// The character a single-character escape stands for, if the escape is one
/// the grammar accepts.
pub open spec fn spec_unescape(c: char) -> Option<char> {
    if c == '"' {
        Some('"')
    } else if c == '\\' {
        Some('\\')
    } else if c == '/' {
        Some('/')
    } else if c == 'b' {
        Some('\u{0008}')
    } else if c == 'f' {
        Some('\u{000c}')
    } else if c == 'n' {
        Some('\n')
    } else if c == 'r' {
        Some('\r')
    } else if c == 't' {
        Some('\t')
    } else {
        None
    }
}

/// The rest of a string literal, starting just after the opening quote (or
/// after any prefix already consumed): the decoded content and the position
/// after the closing quote.
pub open spec fn spec_string_body(s: Seq<char>, i: int) -> Option<(Seq<char>, int)>
    decreases s.len() - i,
{
    if i < 0 || i >= s.len() {
        None
    } else if s[i] == '"' {
        Some((Seq::<char>::empty(), i + 1))
    } else if s[i] == '\\' {
        if i + 1 < s.len() && spec_unescape(s[i + 1]) is Some {
            match spec_string_body(s, i + 2) {
                Some((tail, j)) => Some((seq![spec_unescape(s[i + 1])->0] + tail, j)),
                None => None,
            }
        } else {
            None
        }
    } else if (s[i] as u32) >= 0x20 {
        match spec_string_body(s, i + 1) {
            Some((tail, j)) => Some((seq![s[i]] + tail, j)),
            None => None,
        }
    } else {
        None
    }
}

/// A whole string literal at `i`: an opening quote, then its body.
pub open spec fn spec_string(s: Seq<char>, i: int) -> Option<(Seq<char>, int)> {
    if 0 <= i < s.len() && s[i] == '"' {
        spec_string_body(s, i + 1)
    } else {
        None
    }
}

/// An object member `<key> : <value>` at `i`, both key and value string
/// literals: the pair and the position after the value.
pub open spec fn spec_member(s: Seq<char>, i: int) -> Option<((Seq<char>, Seq<char>), int)> {
    match spec_string(s, i) {
        Some((key, j)) => {
            let colon = spec_skip_ws(s, j);
            if 0 <= colon < s.len() && s[colon] == ':' {
                match spec_string(s, spec_skip_ws(s, colon + 1)) {
                    Some((value, n)) => Some(((key, value), n)),
                    None => None,
                }
            } else {
                None
            }
        },
        None => None,
    }
}

/// A translation object at `i`: exactly the members
/// `detected_source_language` and `text`, in either order. The result pair
/// is (detected source language, text).
pub open spec fn spec_translation(s: Seq<char>, i: int) -> Option<((Seq<char>, Seq<char>), int)> {
    if 0 <= i < s.len() && s[i] == '{' {
        match spec_member(s, spec_skip_ws(s, i + 1)) {
            Some(((k1, v1), m)) => {
                let comma = spec_skip_ws(s, m);
                if 0 <= comma < s.len() && s[comma] == ',' {
                    match spec_member(s, spec_skip_ws(s, comma + 1)) {
                        Some(((k2, v2), n)) => {
                            let close = spec_skip_ws(s, n);
                            if 0 <= close < s.len() && s[close] == '}' {
                                if k1 == "detected_source_language"@ && k2 == "text"@ {
                                    Some(((v1, v2), close + 1))
                                } else if k1 == "text"@ && k2 == "detected_source_language"@ {
                                    Some(((v2, v1), close + 1))
                                } else {
                                    None
                                }
                            } else {
                                None
                            }
                        },
                        None => None,
                    }
                } else {
                    None
                }
            },
            None => None,
        }
    } else {
        None
    }
}

/// The remainder of a translation array after one element has been read:
/// either a closing bracket, or a comma and a further element, repeated.
pub open spec fn spec_translation_tail(s: Seq<char>, i: int) -> Option<
    (Seq<(Seq<char>, Seq<char>)>, int),
>
    decreases s.len() - i,
        via spec_translation_tail_decreases
{
    let j = spec_skip_ws(s, i);
    if 0 <= j < s.len() {
        if s[j] == ']' {
            Some((Seq::<(Seq<char>, Seq<char>)>::empty(), j + 1))
        } else if s[j] == ',' {
            match spec_translation(s, spec_skip_ws(s, j + 1)) {
                Some((t, m)) => match spec_translation_tail(s, m) {
                    Some((rest, n)) => Some((seq![t] + rest, n)),
                    None => None,
                },
                None => None,
            }
        } else {
            None
        }
    } else {
        None
    }
}

#[via_fn]
proof fn spec_translation_tail_decreases(s: Seq<char>, i: int) {
    lemma_skip_ws_bounds(s, i);
    let j = spec_skip_ws(s, i);
    if 0 <= j < s.len() && s[j] == ',' {
        lemma_skip_ws_bounds(s, j + 1);
        lemma_translation_bounds(s, spec_skip_ws(s, j + 1));
    }
}

/// A translation array at `i`: `[`, then either `]` or the elements,
/// comma-separated, then `]`.
pub open spec fn spec_translation_array(s: Seq<char>, i: int) -> Option<
    (Seq<(Seq<char>, Seq<char>)>, int),
> {
    if 0 <= i < s.len() && s[i] == '[' {
        let j = spec_skip_ws(s, i + 1);
        if 0 <= j < s.len() && s[j] == ']' {
            Some((Seq::<(Seq<char>, Seq<char>)>::empty(), j + 1))
        } else {
            match spec_translation(s, j) {
                Some((t, m)) => match spec_translation_tail(s, m) {
                    Some((rest, n)) => Some((seq![t] + rest, n)),
                    None => None,
                },
                None => None,
            }
        }
    } else {
        None
    }
}

/// The whole response document: one object whose single member is
/// `translations` with a translation array as its value, with nothing but
/// whitespace before or after. The result is the sequence of
/// (detected source language, text) pairs.
pub open spec fn spec_parse_document(s: Seq<char>) -> Option<Seq<(Seq<char>, Seq<char>)>> {
    let open = spec_skip_ws(s, 0);
    if 0 <= open < s.len() && s[open] == '{' {
        match spec_string(s, spec_skip_ws(s, open + 1)) {
            Some((key, k)) => {
                if key == "translations"@ {
                    let colon = spec_skip_ws(s, k);
                    if 0 <= colon < s.len() && s[colon] == ':' {
                        match spec_translation_array(s, spec_skip_ws(s, colon + 1)) {
                            Some((items, m)) => {
                                let close = spec_skip_ws(s, m);
                                if 0 <= close < s.len() && s[close] == '}' && spec_skip_ws(
                                    s,
                                    close + 1,
                                ) == s.len() {
                                    Some(items)
                                } else {
                                    None
                                }
                            },
                            None => None,
                        }
                    } else {
                        None
                    }
                } else {
                    None
                }
            },
            None => None,
        }
    } else {
        None
    }
}

/// `r`, with the given prefix put before its decoded content.
spec fn prepend_chars(prefix: Seq<char>, r: Option<(Seq<char>, int)>) -> Option<
    (Seq<char>, int),
> {
    match r {
        Some((tail, j)) => Some((prefix + tail, j)),
        None => None,
    }
}

/// Prepending a prefix and then one more sequence is prepending their
/// concatenation.
proof fn lemma_prepend_chars_assoc(prefix: Seq<char>, mid: Seq<char>, r: Option<(Seq<char>, int)>)
    ensures
        prepend_chars(prefix, prepend_chars(mid, r)) == prepend_chars(prefix + mid, r),
{
    match r {
        Some((tail, j)) => {
            assert(prefix + (mid + tail) =~= (prefix + mid) + tail);
        },
        None => {},
    }
}

/// Relies on `String::push`: appends exactly the given character to the end
/// of the string.
#[verifier::external_body]
fn push_char(s: &mut String, c: char)
    ensures
        final(s)@ == old(s)@ + seq![c],
{
    s.push(c);
}

/// The executable counterpart of [`spec_unescape`].
fn unescape_char(c: char) -> (r: Option<char>)
    ensures
        r == spec_unescape(c),
{
    if c == '"' {
        Some('"')
    } else if c == '\\' {
        Some('\\')
    } else if c == '/' {
        Some('/')
    } else if c == 'b' {
        Some('\u{0008}')
    } else if c == 'f' {
        Some('\u{000c}')
    } else if c == 'n' {
        Some('\n')
    } else if c == 'r' {
        Some('\r')
    } else if c == 't' {
        Some('\t')
    } else {
        None
    }
}

/// Whether the character at `j` is JSON whitespace.
fn ws_at(s: &str, j: usize) -> (r: bool)
    requires
        j < s@.len(),
    ensures
        r == is_json_ws(s@[j as int]),
{
    let c = s.get_char(j);
    c == ' ' || c == '\n' || c == '\r' || c == '\t'
}

/// Advances past whitespace, exactly as [`spec_skip_ws`] does.
fn skip_ws(s: &str, i: usize) -> (r: usize)
    requires
        i <= s@.len(),
    ensures
        r == spec_skip_ws(s@, i as int),
        i <= r <= s@.len(),
{
    let end = s.unicode_len();
    let mut j = i;
    loop
        invariant
            i <= j <= end,
            end == s@.len(),
            spec_skip_ws(s@, i as int) == spec_skip_ws(s@, j as int),
        ensures
            i <= j <= s@.len(),
            spec_skip_ws(s@, i as int) == spec_skip_ws(s@, j as int),
            j == s@.len() || !is_json_ws(s@[j as int]),
        decreases s@.len() - j,
    {
        if j == end {
            break;
        }
        if !ws_at(s, j) {
            break;
        }
        j = j + 1;
    }
    j
}

/// Parses a string literal's body starting at `start` (just after the
/// opening quote), exactly as [`spec_string_body`] does.
fn parse_string_body(s: &str, start: usize) -> (r: Option<(String, usize)>)
    requires
        start <= s@.len(),
    ensures
        match r {
            Some(v) => spec_string_body(s@, start as int) == Some((v.0@, v.1 as int)) && start
                < v.1 <= s@.len(),
            None => spec_string_body(s@, start as int) is None,
        },
{
    let end = s.unicode_len();
    let mut out = String::new();
    let mut i = start;
    loop
        invariant
            start <= i <= end,
            end == s@.len(),
            spec_string_body(s@, start as int) == prepend_chars(
                out@,
                spec_string_body(s@, i as int),
            ),
        decreases s@.len() - i,
    {
        if i == end {
            return None;
        }
        let c = s.get_char(i);
        if c == '"' {
            proof {
                assert(out@ + Seq::<char>::empty() =~= out@);
            }
            return Some((out, i + 1));
        } else if c == '\\' {
            if i + 1 == end {
                return None;
            }
            let c2 = s.get_char(i + 1);
            match unescape_char(c2) {
                Some(u) => {
                    proof {
                        assert(spec_string_body(s@, i as int) == prepend_chars(
                            seq![u],
                            spec_string_body(s@, i as int + 2),
                        ));
                        lemma_prepend_chars_assoc(
                            out@,
                            seq![u],
                            spec_string_body(s@, i as int + 2),
                        );
                    }
                    push_char(&mut out, u);
                    i = i + 2;
                },
                None => {
                    return None;
                },
            }
        } else if (c as u32) < 0x20 {
            return None;
        } else {
            proof {
                assert(spec_string_body(s@, i as int) == prepend_chars(
                    seq![c],
                    spec_string_body(s@, i as int + 1),
                ));
                lemma_prepend_chars_assoc(out@, seq![c], spec_string_body(s@, i as int + 1));
            }
            push_char(&mut out, c);
            i = i + 1;
        }
    }
}

/// Parses a whole string literal at `i`, exactly as [`spec_string`] does.
fn parse_string(s: &str, i: usize) -> (r: Option<(String, usize)>)
    requires
        i <= s@.len(),
    ensures
        match r {
            Some(v) => spec_string(s@, i as int) == Some((v.0@, v.1 as int)) && i < v.1 <= s@.len(),
            None => spec_string(s@, i as int) is None,
        },
{
    let end = s.unicode_len();
    if i < end && s.get_char(i) == '"' {
        parse_string_body(s, i + 1)
    } else {
        None
    }
}

/// Parses an object member at `i`, exactly as [`spec_member`] does.
fn parse_member(s: &str, i: usize) -> (r: Option<((String, String), usize)>)
    requires
        i <= s@.len(),
    ensures
        match r {
            Some(v) => spec_member(s@, i as int) == Some(((v.0.0@, v.0.1@), v.1 as int)) && i < v.1
                <= s@.len(),
            None => spec_member(s@, i as int) is None,
        },
{
    let end = s.unicode_len();
    match parse_string(s, i) {
        Some((key, j)) => {
            let colon = skip_ws(s, j);
            if colon < end && s.get_char(colon) == ':' {
                let value_start = skip_ws(s, colon + 1);
                match parse_string(s, value_start) {
                    Some((value, after)) => Some(((key, value), after)),
                    None => None,
                }
            } else {
                None
            }
        },
        None => None,
    }
}

/// Parses a translation object at `i`, exactly as [`spec_translation`] does.
fn parse_translation(s: &str, i: usize) -> (r: Option<(Translation, usize)>)
    requires
        i <= s@.len(),
    ensures
        match r {
            Some(v) => spec_translation(s@, i as int) == Some((v.0@, v.1 as int)) && i < v.1
                <= s@.len(),
            None => spec_translation(s@, i as int) is None,
        },
{
    let end = s.unicode_len();
    if !(i < end && s.get_char(i) == '{') {
        return None;
    }
    let first_start = skip_ws(s, i + 1);
    let ((k1, v1), m) = match parse_member(s, first_start) {
        Some(p) => p,
        None => {
            return None;
        },
    };
    let comma = skip_ws(s, m);
    if !(comma < end && s.get_char(comma) == ',') {
        return None;
    }
    let second_start = skip_ws(s, comma + 1);
    let ((k2, v2), n) = match parse_member(s, second_start) {
        Some(p) => p,
        None => {
            return None;
        },
    };
    let close = skip_ws(s, n);
    if !(close < end && s.get_char(close) == '}') {
        return None;
    }
    let language_key = String::from_str("detected_source_language");
    let text_key = String::from_str("text");
    if k1 == language_key && k2 == text_key {
        Some((Translation { detected_source_language: v1, text: v2 }, close + 1))
    } else if k1 == text_key && k2 == language_key {
        Some((Translation { detected_source_language: v2, text: v1 }, close + 1))
    } else {
        None
    }
}

/// `r`, with the given translations put before its items.
spec fn prepend_items(
    prefix: Seq<(Seq<char>, Seq<char>)>,
    r: Option<(Seq<(Seq<char>, Seq<char>)>, int)>,
) -> Option<(Seq<(Seq<char>, Seq<char>)>, int)> {
    match r {
        Some((rest, j)) => Some((prefix + rest, j)),
        None => None,
    }
}

/// Prepending a prefix and then one more sequence is prepending their
/// concatenation.
proof fn lemma_prepend_items_assoc(
    prefix: Seq<(Seq<char>, Seq<char>)>,
    mid: Seq<(Seq<char>, Seq<char>)>,
    r: Option<(Seq<(Seq<char>, Seq<char>)>, int)>,
)
    ensures
        prepend_items(prefix, prepend_items(mid, r)) == prepend_items(prefix + mid, r),
{
    match r {
        Some((rest, j)) => {
            assert(prefix + (mid + rest) =~= (prefix + mid) + rest);
        },
        None => {},
    }
}

/// Parses a translation array at `i`, exactly as [`spec_translation_array`]
/// does; the items come back in the order they stand in the input.
fn parse_translation_array(s: &str, i: usize) -> (r: Option<(Vec<Translation>, usize)>)
    requires
        i <= s@.len(),
    ensures
        match r {
            Some(v) => spec_translation_array(s@, i as int) == Some(
                (translation_views(v.0@), v.1 as int),
            ) && i < v.1 <= s@.len(),
            None => spec_translation_array(s@, i as int) is None,
        },
{
    let end = s.unicode_len();
    if !(i < end && s.get_char(i) == '[') {
        return None;
    }
    let first_start = skip_ws(s, i + 1);
    if first_start < end && s.get_char(first_start) == ']' {
        let items: Vec<Translation> = Vec::new();
        proof {
            assert(translation_views(items@) =~= Seq::<(Seq<char>, Seq<char>)>::empty());
        }
        return Some((items, first_start + 1));
    }
    let (first, m) = match parse_translation(s, first_start) {
        Some(p) => p,
        None => {
            return None;
        },
    };
    let mut items: Vec<Translation> = Vec::new();
    proof {
        assert(translation_views(items@.push(first)) =~= seq![first@]);
    }
    items.push(first);
    let mut pos = m;
    loop
        invariant
            i < pos <= s@.len(),
            end == s@.len(),
            spec_translation_array(s@, i as int) == prepend_items(
                translation_views(items@),
                spec_translation_tail(s@, pos as int),
            ),
        decreases s@.len() - pos,
    {
        let bracket = skip_ws(s, pos);
        if bracket == end {
            return None;
        }
        let c = s.get_char(bracket);
        if c == ']' {
            proof {
                assert(translation_views(items@) + Seq::<(Seq<char>, Seq<char>)>::empty()
                    =~= translation_views(items@));
            }
            return Some((items, bracket + 1));
        } else if c == ',' {
            let next_start = skip_ws(s, bracket + 1);
            match parse_translation(s, next_start) {
                Some((t, after)) => {
                    proof {
                        assert(spec_translation_tail(s@, pos as int) == prepend_items(
                            seq![t@],
                            spec_translation_tail(s@, after as int),
                        ));
                        lemma_prepend_items_assoc(
                            translation_views(items@),
                            seq![t@],
                            spec_translation_tail(s@, after as int),
                        );
                        assert(translation_views(items@.push(t)) =~= translation_views(items@)
                            + seq![t@]);
                    }
                    items.push(t);
                    pos = after;
                },
                None => {
                    return None;
                },
            }
        } else {
            return None;
        }
    }
}

/// Parses a whole response body, exactly as [`spec_parse_document`] does:
/// `Some` with the translations the document carries when the body has the
/// documented shape, `None` otherwise.
pub fn parse_translations(body: &str) -> (r: Option<Translations>)
    ensures
        match r {
            Some(t) => spec_parse_document(body@) == Some(t@),
            None => spec_parse_document(body@) is None,
        },
{
    let end = body.unicode_len();
    let open = skip_ws(body, 0);
    if !(open < end && body.get_char(open) == '{') {
        return None;
    }
    let key_start = skip_ws(body, open + 1);
    let (key, k) = match parse_string(body, key_start) {
        Some(p) => p,
        None => {
            return None;
        },
    };
    if !(key == String::from_str("translations")) {
        return None;
    }
    let colon = skip_ws(body, k);
    if !(colon < end && body.get_char(colon) == ':') {
        return None;
    }
    let array_start = skip_ws(body, colon + 1);
    let (items, m) = match parse_translation_array(body, array_start) {
        Some(p) => p,
        None => {
            return None;
        },
    };
    let close = skip_ws(body, m);
    if !(close < end && body.get_char(close) == '}') {
        return None;
    }
    let past = skip_ws(body, close + 1);
    if past != end {
        return None;
    }
    Some(Translations { translations: items })
}

/// Turns one HTTP exchange's observable outcome into the client's result:
/// a status other than 200 is reported as that status and nothing is parsed;
/// on a 200, a body of the documented shape yields its translations, and any
/// other body is a malformed response.
pub fn handle_response(status: u16, body: &str) -> (r: Result<Translations, RequestError>)
    ensures
        status != 200 ==> r == Err::<Translations, RequestError>(
            RequestError::NonSuccessStatus(status),
        ),
        status == 200 ==> match r {
            Ok(t) => spec_parse_document(body@) == Some(t@),
            Err(e) => e == RequestError::MalformedResponse && spec_parse_document(body@) is None,
        },
{
    if status != 200 {
        return Err(RequestError::NonSuccessStatus(status));
    }
    match parse_translations(body) {
        Some(t) => Ok(t),
        None => Err(RequestError::MalformedResponse),
    }
}

/// Skipping whitespace never moves backwards and never runs past the end.
proof fn lemma_skip_ws_bounds(s: Seq<char>, i: int)
    ensures
        i <= spec_skip_ws(s, i),
        i <= s.len() ==> spec_skip_ws(s, i) <= s.len(),
        i > s.len() ==> spec_skip_ws(s, i) == i,
    decreases s.len() - i,
{
    if 0 <= i < s.len() && is_json_ws(s[i]) {
        lemma_skip_ws_bounds(s, i + 1);
    }
}

/// A parsed string body ends after at least its closing quote and within
/// the input.
proof fn lemma_string_body_bounds(s: Seq<char>, i: int)
    ensures
        spec_string_body(s, i) is Some ==> i + 1 <= (spec_string_body(s, i)->0).1 <= s.len(),
    decreases s.len() - i,
{
    if 0 <= i < s.len() {
        if s[i] == '\\' {
            if i + 1 < s.len() {
                lemma_string_body_bounds(s, i + 2);
            }
        } else {
            lemma_string_body_bounds(s, i + 1);
        }
    }
}

/// A parsed string literal consumes at least its two quotes and stays within
/// the input.
proof fn lemma_string_bounds(s: Seq<char>, i: int)
    ensures
        spec_string(s, i) is Some ==> i + 2 <= (spec_string(s, i)->0).1 <= s.len(),
{
    lemma_string_body_bounds(s, i + 1);
}

/// A parsed member moves the position strictly forward and stays within the
/// input.
proof fn lemma_member_bounds(s: Seq<char>, i: int)
    ensures
        spec_member(s, i) is Some ==> i < (spec_member(s, i)->0).1 <= s.len(),
{
    lemma_string_bounds(s, i);
    if spec_string(s, i) is Some {
        let j = (spec_string(s, i)->0).1;
        lemma_skip_ws_bounds(s, j);
        let colon = spec_skip_ws(s, j);
        if 0 <= colon < s.len() && s[colon] == ':' {
            lemma_skip_ws_bounds(s, colon + 1);
            lemma_string_bounds(s, spec_skip_ws(s, colon + 1));
        }
    }
}

/// A parsed translation object moves the position strictly forward and stays
/// within the input.
proof fn lemma_translation_bounds(s: Seq<char>, i: int)
    ensures
        spec_translation(s, i) is Some ==> i < (spec_translation(s, i)->0).1 <= s.len(),
{
    if 0 <= i < s.len() && s[i] == '{' {
        lemma_skip_ws_bounds(s, i + 1);
        let m1 = spec_skip_ws(s, i + 1);
        lemma_member_bounds(s, m1);
        if spec_member(s, m1) is Some {
            let m = (spec_member(s, m1)->0).1;
            lemma_skip_ws_bounds(s, m);
            let comma = spec_skip_ws(s, m);
            if 0 <= comma < s.len() && s[comma] == ',' {
                lemma_skip_ws_bounds(s, comma + 1);
                let m2 = spec_skip_ws(s, comma + 1);
                lemma_member_bounds(s, m2);
                if spec_member(s, m2) is Some {
                    let n = (spec_member(s, m2)->0).1;
                    lemma_skip_ws_bounds(s, n);
                }
            }
        }
    }
}

} // verus!
