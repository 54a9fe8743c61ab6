use vstd::prelude::*;

verus! {

/// Text equality between two string slices.
///
/// Trusted: `<str as PartialEq>::eq`, which std documents as comparing the two
/// slices character by character; the contract states exactly that.
#[verifier::external_body]
pub(crate) fn str_eq(a: &str, b: &str) -> (r: bool)
    ensures
        r == (a@ == b@),
{
    a == b
}

/// The length in bytes of a text, as Rust's `len` reports it.
pub open spec fn byte_len(s: Seq<char>) -> usize {
    vstd::utf8::encode_utf8(s).len() as usize
}

/// Copies a string slice into an owned `String` with the same characters.
pub fn owned(s: &str) -> (r: String)
    ensures
        r@ == s@,
{
    s.to_owned()
}

/// The hexadecimal digit `d` (below sixteen), in lower case.
pub open spec fn hex_digit(d: nat) -> char {
    seq!['0', '1', '2', '3', '4', '5', '6', '7', '8', '9', 'a', 'b', 'c', 'd', 'e', 'f'][d as int]
}

/// How a character is written inside a JSON string: the quote and the
/// backslash behind a backslash; backspace, tab, line feed, form feed and
/// carriage return as `\b`, `\t`, `\n`, `\f`, `\r`; other characters below
/// U+0020 as `\u00` and two hex digits; every other character as itself.
pub open spec fn json_escape_char(c: char) -> Seq<char> {
    if c == '\u{22}' {
        seq!['\\', '\u{22}']
    } else if c == '\\' {
        seq!['\\', '\\']
    } else if c == '\u{8}' {
        seq!['\\', 'b']
    } else if c == '\t' {
        seq!['\\', 't']
    } else if c == '\n' {
        seq!['\\', 'n']
    } else if c == '\u{c}' {
        seq!['\\', 'f']
    } else if c == '\r' {
        seq!['\\', 'r']
    } else if (c as nat) < 0x20 {
        seq!['\\', 'u', '0', '0', hex_digit((c as nat) / 16), hex_digit((c as nat) % 16)]
    } else {
        seq![c]
    }
}

/// The characters of a text as they are written inside a JSON string.
pub open spec fn json_escaped(s: Seq<char>) -> Seq<char>
    decreases s.len(),
{
    if s.len() == 0 {
        Seq::empty()
    } else {
        json_escaped(s.drop_last()) + json_escape_char(s.last())
    }
}

/// The JSON string literal of a text: its escaped characters in quotes.
pub open spec fn json_string(s: Seq<char>) -> Seq<char> {
    seq!['\u{22}'] + json_escaped(s) + seq!['\u{22}']
}

/// Writes a text as a JSON string literal.
///
/// Trusted: `serde_json::to_string::<str>`. Its source writes a quote, the
/// text with the escapes of `json_escape_char` (looked up byte by byte in
/// its `ESCAPE` table, so characters past ASCII pass unchanged) and a
/// quote, into a vector, which cannot fail.
#[verifier::external_body]
pub(crate) fn json_quote(s: &str) -> (r: Option<String>)
    ensures
        r is Some,
        r->0@ == json_string(s@),
{
    serde_json::to_string(s).ok()
}

/// The debugging form of a text: `format!("{:?}", s)` on a `&str`, the text
/// quoted with its special characters escaped.
pub uninterp spec fn debug_quoted(s: Seq<char>) -> Seq<char>;

/// Writes a text in its debugging form.
///
/// Trusted: the `Debug` formatting of `str` in std. The contract claims only
/// that the output is a function of the characters of `s`, named `debug_quoted`.
#[verifier::external_body]
pub(crate) fn debug_quote(s: &str) -> (r: String)
    ensures
        r@ == debug_quoted(s@),
{
    format!("{:?}", s)
}

/// The text of one character.
///
/// Trusted: `ToString` of `char` in std, which writes the character alone.
#[verifier::external_body]
fn char_text(c: char) -> (r: String)
    ensures
        r@ == seq![c],
{
    c.to_string()
}

/// The text made of these characters, in order.
pub(crate) fn text_of(chars: &[char]) -> (r: String)
    ensures
        r@ == chars@,
{
    let mut out = String::new();
    let mut i: usize = 0;
    while i < chars.len()
        invariant
            i <= chars@.len(),
            out@ == chars@.take(i as int),
        decreases chars@.len() - i,
    {
        let piece = char_text(chars[i]);
        out.append(piece.as_str());
        i = i + 1;
        proof {
            assert(out@ =~= chars@.take(i as int));
        }
    }
    proof {
        assert(chars@.take(i as int) =~= chars@);
    }
    out
}

} // verus!
