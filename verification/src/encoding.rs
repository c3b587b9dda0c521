//! The canonical encoding of a response document, and the round trip law.
//!
//! [`spec_encode_document`] writes a list of (detected source language, text)
//! pairs as the response document the service sends: no whitespace, the
//! members in their documented order, and the characters `"` and `\` and the
//! five named control characters escaped. The law at the bottom proves that
//! the parser accepts every such document and returns exactly the encoded
//! pairs — the grammar the parser recognises covers every representable
//! value.

use vstd::prelude::*;

use crate::response::spec_member;
use crate::response::spec_parse_document;
use crate::response::spec_skip_ws;
use crate::response::spec_string;
use crate::response::spec_string_body;
use crate::response::spec_translation;
use crate::response::spec_translation_array;
use crate::response::spec_translation_tail;
use crate::response::spec_unescape;

verus! {

broadcast use vstd::string::group_string_axioms;

/// How one character stands inside an encoded string literal.
pub open spec fn escape_char(c: char) -> Seq<char> {
    if c == '"' {
        seq!['\\', '"']
    } else if c == '\\' {
        seq!['\\', '\\']
    } else if c == '\u{0008}' {
        seq!['\\', 'b']
    } else if c == '\u{000c}' {
        seq!['\\', 'f']
    } else if c == '\n' {
        seq!['\\', 'n']
    } else if c == '\r' {
        seq!['\\', 'r']
    } else if c == '\t' {
        seq!['\\', 't']
    } else {
        seq![c]
    }
}

/// A character the encoding can carry: anything but the control characters
/// that have no named escape.
pub open spec fn encodable_char(c: char) -> bool {
    (c as u32) >= 0x20 || escape_char(c).len() == 2
}

/// A string the encoding can carry.
pub open spec fn encodable(v: Seq<char>) -> bool {
    forall|j: int| 0 <= j < v.len() ==> encodable_char(#[trigger] v[j])
}

/// The content of an encoded string literal, between its quotes.
pub open spec fn encode_content(v: Seq<char>) -> Seq<char>
    decreases v.len(),
{
    if v.len() == 0 {
        Seq::<char>::empty()
    } else {
        escape_char(v[0]) + encode_content(v.drop_first())
    }
}

/// A whole encoded string literal.
pub open spec fn encode_string(v: Seq<char>) -> Seq<char> {
    seq!['"'] + encode_content(v) + seq!['"']
}

/// The sequence `s` holds exactly `e` starting at `i`.
pub open spec fn lit_at(s: Seq<char>, i: int, e: Seq<char>) -> bool {
    0 <= i && i + e.len() <= s.len() && s.subrange(i, i + e.len()) == e
}

/// Where `s` holds `a + b` at `i`, it holds `a` at `i` and `b` right after.
proof fn lemma_lit_at_split(s: Seq<char>, i: int, a: Seq<char>, b: Seq<char>)
    requires
        lit_at(s, i, a + b),
    ensures
        lit_at(s, i, a),
        lit_at(s, i + a.len(), b),
{
    assert forall|j: int| 0 <= j < a.len() implies s.subrange(i, i + a.len())[j] == a[j] by {
        assert(s.subrange(i, i + (a + b).len())[j] == (a + b)[j]);
    }
    assert(s.subrange(i, i + a.len()) =~= a);
    assert forall|j: int| 0 <= j < b.len() implies s.subrange(
        i + a.len(),
        i + a.len() + b.len(),
    )[j] == b[j] by {
        assert(s.subrange(i, i + (a + b).len())[a.len() + j] == (a + b)[a.len() + j]);
    }
    assert(s.subrange(i + a.len(), i + a.len() + b.len()) =~= b);
}

/// Where `s` holds `e` at `i`, the character of `e` at `j` stands at `i + j`.
proof fn lemma_lit_at_index(s: Seq<char>, i: int, e: Seq<char>, j: int)
    requires
        lit_at(s, i, e),
        0 <= j < e.len(),
    ensures
        s[i + j] == e[j],
{
    assert(s.subrange(i, i + e.len())[j] == e[j]);
}

/// Parsing a string body over the encoded content of `v`, followed by the
/// closing quote, yields exactly `v`.
proof fn lemma_parse_encoded_content(s: Seq<char>, i: int, v: Seq<char>)
    requires
        encodable(v),
        lit_at(s, i, encode_content(v) + seq!['"']),
    ensures
        spec_string_body(s, i) == Some((v, i + encode_content(v).len() + 1)),
    decreases v.len(),
{
    if v.len() == 0 {
        lemma_lit_at_index(s, i, encode_content(v) + seq!['"'], 0);
        assert((encode_content(v) + seq!['"'])[0] == '"');
        assert(s[i] == '"');
        assert(v =~= Seq::<char>::empty());
    } else {
        let c = v[0];
        let rest = v.drop_first();
        assert(encodable_char(c));
        assert(encodable(rest)) by {
            assert forall|j: int| 0 <= j < rest.len() implies encodable_char(
                #[trigger] rest[j],
            ) by {
                assert(rest[j] == v[j + 1]);
            }
        }
        assert(encode_content(v) + seq!['"'] =~= escape_char(c) + (encode_content(rest)
            + seq!['"']));
        lemma_lit_at_split(s, i, escape_char(c), encode_content(rest) + seq!['"']);
        lemma_lit_at_index(s, i, escape_char(c), 0);
        if escape_char(c).len() == 2 {
            lemma_lit_at_index(s, i, escape_char(c), 1);
        }
        let after: int = i + escape_char(c).len() as int;
        lemma_parse_encoded_content(s, after, rest);
        if escape_char(c).len() == 2 {
            assert(s[i] == '\\');
            assert(spec_unescape(s[i + 1]) == Some(c));
            assert(spec_string_body(s, i) == Some(
                (seq![c] + rest, after + encode_content(rest).len() + 1),
            ));
        } else {
            assert(s[i] == c);
            assert(c != '"' && c != '\\' && (c as u32) >= 0x20);
            assert(spec_string_body(s, i) == Some(
                (seq![c] + rest, after + encode_content(rest).len() + 1),
            ));
        }
        assert(seq![c] + rest =~= v);
    }
}

/// Parsing a string literal over the encoding of `v` yields exactly `v`.
proof fn lemma_parse_encoded_string(s: Seq<char>, i: int, v: Seq<char>)
    requires
        encodable(v),
        lit_at(s, i, encode_string(v)),
    ensures
        spec_string(s, i) == Some((v, i + encode_string(v).len())),
{
    assert(encode_string(v) =~= seq!['"'] + (encode_content(v) + seq!['"']));
    lemma_lit_at_split(s, i, seq!['"'], encode_content(v) + seq!['"']);
    lemma_lit_at_index(s, i, seq!['"'], 0);
    assert(s[i] == '"');
    lemma_parse_encoded_content(s, i + 1, v);
}

/// An encoded object member: key, colon, value.
pub open spec fn encode_member(key: Seq<char>, value: Seq<char>) -> Seq<char> {
    encode_string(key) + seq![':'] + encode_string(value)
}

/// An encoded translation object, members in their documented order.
pub open spec fn encode_translation(p: (Seq<char>, Seq<char>)) -> Seq<char> {
    seq!['{'] + encode_member("detected_source_language"@, p.0) + seq![','] + encode_member(
        "text"@,
        p.1,
    ) + seq!['}']
}

/// The rest of an encoded array after its first element: for each further
/// element a comma and the element, then the closing bracket.
pub open spec fn encode_items_tail(items: Seq<(Seq<char>, Seq<char>)>) -> Seq<char>
    decreases items.len(),
{
    if items.len() == 0 {
        seq![']']
    } else {
        seq![','] + encode_translation(items[0]) + encode_items_tail(items.drop_first())
    }
}

/// An encoded translation array.
pub open spec fn encode_array(items: Seq<(Seq<char>, Seq<char>)>) -> Seq<char> {
    if items.len() == 0 {
        seq!['[', ']']
    } else {
        seq!['['] + encode_translation(items[0]) + encode_items_tail(items.drop_first())
    }
}

/// The canonical encoding of a whole response document.
pub open spec fn spec_encode_document(items: Seq<(Seq<char>, Seq<char>)>) -> Seq<char> {
    seq!['{'] + encode_string("translations"@) + seq![':'] + encode_array(items) + seq!['}']
}

/// Every string of every item can be carried by the encoding.
pub open spec fn encodable_items(items: Seq<(Seq<char>, Seq<char>)>) -> bool {
    forall|j: int|
        0 <= j < items.len() ==> encodable((#[trigger] items[j]).0) && encodable(items[j].1)
}

/// The member keys the encoder writes can themselves be carried.
proof fn lemma_keys_encodable()
    ensures
        encodable("detected_source_language"@),
        encodable("text"@),
        encodable("translations"@),
{
    reveal_strlit("detected_source_language");
    reveal_strlit("text");
    reveal_strlit("translations");
    assert("detected_source_language"@.len() == 24);
    assert("text"@.len() == 4);
    assert("translations"@.len() == 12);
}

/// Parsing an object member over its encoding yields exactly its pair.
proof fn lemma_parse_encoded_member(s: Seq<char>, i: int, key: Seq<char>, value: Seq<char>)
    requires
        encodable(key),
        encodable(value),
        lit_at(s, i, encode_member(key, value)),
    ensures
        spec_member(s, i) == Some(((key, value), i + encode_member(key, value).len())),
{
    assert(encode_member(key, value) =~= encode_string(key) + (seq![':'] + encode_string(value)));
    lemma_lit_at_split(s, i, encode_string(key), seq![':'] + encode_string(value));
    let j: int = i + encode_string(key).len() as int;
    lemma_lit_at_split(s, j, seq![':'], encode_string(value));
    lemma_lit_at_index(s, j, seq![':'], 0);
    lemma_lit_at_index(s, j + 1, encode_string(value), 0);
    lemma_parse_encoded_string(s, i, key);
    assert(s[j] == ':');
    assert(spec_skip_ws(s, j) == j);
    assert(s[j + 1] == '"');
    assert(spec_skip_ws(s, j + 1) == j + 1);
    lemma_parse_encoded_string(s, j + 1, value);
}

/// Parsing a translation object over its encoding yields exactly its pair.
proof fn lemma_parse_encoded_translation(s: Seq<char>, i: int, p: (Seq<char>, Seq<char>))
    requires
        encodable(p.0),
        encodable(p.1),
        lit_at(s, i, encode_translation(p)),
    ensures
        spec_translation(s, i) == Some((p, i + encode_translation(p).len())),
{
    lemma_keys_encodable();
    let first = encode_member("detected_source_language"@, p.0);
    let second = encode_member("text"@, p.1);
    assert(encode_translation(p) =~= seq!['{'] + (first + (seq![','] + (second + seq!['}']))));
    lemma_lit_at_split(s, i, seq!['{'], first + (seq![','] + (second + seq!['}'])));
    lemma_lit_at_index(s, i, seq!['{'], 0);
    lemma_lit_at_split(s, i + 1, first, seq![','] + (second + seq!['}']));
    let m: int = i + 1 + first.len() as int;
    lemma_lit_at_split(s, m, seq![','], second + seq!['}']);
    lemma_lit_at_index(s, m, seq![','], 0);
    lemma_lit_at_split(s, m + 1, second, seq!['}']);
    let n: int = m + 1 + second.len() as int;
    lemma_lit_at_index(s, n, seq!['}'], 0);

    assert(s[i] == '{');
    lemma_lit_at_index(s, i + 1, first, 0);
    assert(first[0] == '"');
    assert(s[i + 1] == '"');
    assert(spec_skip_ws(s, i + 1) == i + 1);
    lemma_parse_encoded_member(s, i + 1, "detected_source_language"@, p.0);
    assert(s[m] == ',');
    assert(spec_skip_ws(s, m) == m);
    lemma_lit_at_index(s, m + 1, second, 0);
    assert(second[0] == '"');
    assert(s[m + 1] == '"');
    assert(spec_skip_ws(s, m + 1) == m + 1);
    lemma_parse_encoded_member(s, m + 1, "text"@, p.1);
    assert(s[n] == '}');
    assert(spec_skip_ws(s, n) == n);
    assert((p.0, p.1) == p);
}

/// Parsing an array remainder over its encoding yields exactly its items.
proof fn lemma_parse_encoded_tail(s: Seq<char>, i: int, items: Seq<(Seq<char>, Seq<char>)>)
    requires
        encodable_items(items),
        lit_at(s, i, encode_items_tail(items)),
    ensures
        spec_translation_tail(s, i) == Some((items, i + encode_items_tail(items).len())),
    decreases items.len(),
{
    if items.len() == 0 {
        lemma_lit_at_index(s, i, encode_items_tail(items), 0);
        assert(s[i] == ']');
        assert(spec_skip_ws(s, i) == i);
        assert(items =~= Seq::<(Seq<char>, Seq<char>)>::empty());
    } else {
        let p = items[0];
        let rest = items.drop_first();
        assert(encodable_items(rest)) by {
            assert forall|j: int|
                0 <= j < rest.len() implies encodable((#[trigger] rest[j]).0) && encodable(
                rest[j].1,
            ) by {
                assert(rest[j] == items[j + 1]);
            }
        }
        assert(encode_items_tail(items) =~= seq![','] + (encode_translation(p)
            + encode_items_tail(rest)));
        lemma_lit_at_split(s, i, seq![','], encode_translation(p) + encode_items_tail(rest));
        lemma_lit_at_index(s, i, seq![','], 0);
        lemma_lit_at_split(s, i + 1, encode_translation(p), encode_items_tail(rest));
        let m: int = i + 1 + encode_translation(p).len() as int;
        assert(s[i] == ',');
        assert(spec_skip_ws(s, i) == i);
        lemma_lit_at_index(s, i + 1, encode_translation(p), 0);
        assert(encode_translation(p)[0] == '{');
        assert(s[i + 1] == '{');
        assert(spec_skip_ws(s, i + 1) == i + 1);
        lemma_parse_encoded_translation(s, i + 1, p);
        lemma_parse_encoded_tail(s, m, rest);
        assert(seq![p] + rest =~= items);
    }
}

/// Parsing a translation array over its encoding yields exactly its items.
proof fn lemma_parse_encoded_array(s: Seq<char>, i: int, items: Seq<(Seq<char>, Seq<char>)>)
    requires
        encodable_items(items),
        lit_at(s, i, encode_array(items)),
    ensures
        spec_translation_array(s, i) == Some((items, i + encode_array(items).len())),
{
    if items.len() == 0 {
        assert(encode_array(items) =~= seq!['['] + seq![']']);
        lemma_lit_at_split(s, i, seq!['['], seq![']']);
        lemma_lit_at_index(s, i, seq!['['], 0);
        lemma_lit_at_index(s, i + 1, seq![']'], 0);
        assert(s[i] == '[');
        assert(s[i + 1] == ']');
        assert(spec_skip_ws(s, i + 1) == i + 1);
        assert(items =~= Seq::<(Seq<char>, Seq<char>)>::empty());
    } else {
        let p = items[0];
        let rest = items.drop_first();
        assert(encodable_items(rest)) by {
            assert forall|j: int|
                0 <= j < rest.len() implies encodable((#[trigger] rest[j]).0) && encodable(
                rest[j].1,
            ) by {
                assert(rest[j] == items[j + 1]);
            }
        }
        assert(encode_array(items) =~= seq!['['] + (encode_translation(p) + encode_items_tail(
            rest,
        )));
        lemma_lit_at_split(s, i, seq!['['], encode_translation(p) + encode_items_tail(rest));
        lemma_lit_at_index(s, i, seq!['['], 0);
        lemma_lit_at_split(s, i + 1, encode_translation(p), encode_items_tail(rest));
        let m: int = i + 1 + encode_translation(p).len() as int;
        assert(s[i] == '[');
        lemma_lit_at_index(s, i + 1, encode_translation(p), 0);
        assert(encode_translation(p)[0] == '{');
        assert(s[i + 1] == '{');
        assert(spec_skip_ws(s, i + 1) == i + 1);
        lemma_parse_encoded_translation(s, i + 1, p);
        lemma_parse_encoded_tail(s, m, rest);
        assert(seq![p] + rest =~= items);
    }
}

/// Law: the parser accepts the canonical encoding of every list of
/// translations and returns exactly that list. Together with the parser's
/// own contracts this is the round trip: encoding and then parsing is the
/// identity on every representable document.
#[verifier::rlimit(60)]
pub proof fn lemma_parse_of_encoded_document(items: Seq<(Seq<char>, Seq<char>)>)
    requires
        encodable_items(items),
    ensures
        spec_parse_document(spec_encode_document(items)) == Some(items),
{
    lemma_keys_encodable();
    let s = spec_encode_document(items);
    let key = encode_string("translations"@);
    assert(s =~= seq!['{'] + (key + (seq![':'] + (encode_array(items) + seq!['}']))));
    assert(lit_at(s, 0, seq!['{'] + (key + (seq![':'] + (encode_array(items) + seq!['}'])))))
        by {
        assert(s.subrange(0, s.len() as int) =~= s);
    }
    lemma_lit_at_split(s, 0, seq!['{'], key + (seq![':'] + (encode_array(items) + seq!['}'])));
    lemma_lit_at_index(s, 0, seq!['{'], 0);
    lemma_lit_at_split(s, 1, key, seq![':'] + (encode_array(items) + seq!['}']));
    let c: int = 1 + key.len() as int;
    lemma_lit_at_split(s, c, seq![':'], encode_array(items) + seq!['}']);
    lemma_lit_at_index(s, c, seq![':'], 0);
    lemma_lit_at_split(s, c + 1, encode_array(items), seq!['}']);
    let e: int = c + 1 + encode_array(items).len() as int;
    lemma_lit_at_index(s, e, seq!['}'], 0);

    assert(s[0] == '{');
    assert(spec_skip_ws(s, 0) == 0);
    lemma_lit_at_index(s, 1, key, 0);
    assert(key[0] == '"');
    assert(s[1] == '"');
    assert(spec_skip_ws(s, 1) == 1);
    lemma_parse_encoded_string(s, 1, "translations"@);
    assert(s[c] == ':');
    assert(spec_skip_ws(s, c) == c);
    lemma_lit_at_index(s, c + 1, encode_array(items), 0);
    assert(s[c + 1] == '[');
    assert(spec_skip_ws(s, c + 1) == c + 1);
    lemma_parse_encoded_array(s, c + 1, items);
    assert(s[e] == '}');
    assert(spec_skip_ws(s, e) == e);
    assert(e + 1 == s.len());
    assert(spec_skip_ws(s, e + 1) == s.len());
}

} // verus!
