//! What the library takes from serde_json: recognising a JSON document and
//! writing a JSON string literal, whose escapes are stated here.

use vstd::prelude::*;

verus! {

/// Whether serde_json reads the text as one complete JSON value.
pub uninterp spec fn json_accepts(s: Seq<char>) -> bool;

/// A lower-case hexadecimal digit.
pub open spec fn hex_digit(d: nat) -> char {
    if d < 10 {
        (d + 48) as char
    } else {
        (d + 87) as char
    }
}

/// How serde_json writes one character inside a string literal: quote and
/// backslash after a backslash, the five usual control characters by their short
/// escapes, other characters below U+0020 as `\u00XX`, all else as it is.
pub open spec fn escape_char(c: char) -> Seq<char> {
    if c == '"' {
        seq!['\\', '"']
    } else if c == '\\' {
        seq!['\\', '\\']
    } else if c == '\x08' {
        seq!['\\', 'b']
    } else if c == '\t' {
        seq!['\\', 't']
    } else if c == '\n' {
        seq!['\\', 'n']
    } else if c == '\x0c' {
        seq!['\\', 'f']
    } else if c == '\r' {
        seq!['\\', 'r']
    } else if (c as u32) < 0x20 {
        seq!['\\', 'u', '0', '0', hex_digit((c as u32 / 16) as nat), hex_digit((c as u32 % 16) as nat)]
    } else {
        seq![c]
    }
}

/// The characters of a text, each escaped.
pub open spec fn escaped(s: Seq<char>) -> Seq<char>
    decreases s.len(),
{
    if s.len() == 0 {
        Seq::empty()
    } else {
        escaped(s.drop_last()) + escape_char(s.last())
    }
}

/// The JSON string literal of a text, quotes included.
pub open spec fn json_quoted(s: Seq<char>) -> Seq<char> {
    seq!['"'] + escaped(s) + seq!['"']
}

/// Text that a JSON string literal holds as it is: no quote, no backslash, no control character.
pub open spec fn is_plain(s: Seq<char>) -> bool {
    forall|i: int| 0 <= i < s.len() ==> {
        let c = #[trigger] s[i];
        c != '"' && c != '\\' && c as u32 >= 0x20
    }
}

/// Plain text comes back unchanged between the quotes.
pub proof fn lemma_plain_is_unescaped(s: Seq<char>)
    requires
        is_plain(s),
    ensures
        escaped(s) == s,
    decreases s.len(),
{
    if s.len() > 0 {
        let t = s.drop_last();
        assert forall|i: int| 0 <= i < t.len() implies {
            let c = #[trigger] t[i];
            c != '"' && c != '\\' && c as u32 >= 0x20
        } by {
            assert(t[i] == s[i]);
        }
        lemma_plain_is_unescaped(t);
        assert(s[s.len() - 1] == s.last());
        assert(t.push(s.last()) =~= s);
        assert(escape_char(s.last()) =~= seq![s.last()]);
    }
}

/// Relies on `serde_json::from_str::<serde_json::Value>`: it succeeds exactly on
/// the texts that hold one JSON value, and its answer depends on the text alone.
#[verifier::external_body]
pub(crate) fn is_json(s: &str) -> (r: bool)
    ensures
        r == json_accepts(s@),
{
    serde_json::from_str::<serde_json::Value>(s).is_ok()
}

/// Relies on `serde_json::to_string` on a `str`: the JSON string literal of the text,
/// escaped by its escape table (`ESCAPE`, `format_escaped_str_contents` and
/// `write_char_escape` in its `ser.rs`).
#[verifier::external_body]
pub(crate) fn json_string(s: &str) -> (r: String)
    ensures
        r@ == json_quoted(s@),
{
    serde_json::to_string(s).unwrap_or_default()
}

} // verus!
