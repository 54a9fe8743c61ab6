//! Random identifiers: game ids, passwords, session tokens and record ids.
use vstd::prelude::*;

use crate::protocol::{string_views, text_listed};
use crate::text::text_of;

verus! {

/// The URL-safe symbols from which tokens are drawn: `_`, `-`, digits and
/// ASCII letters, in the order the generator indexes them.
pub open spec fn url_safe_symbols() -> Seq<char> {
    seq![
        '_', '-', '0', '1', '2', '3', '4', '5', '6', '7', '8', '9', 'a', 'b', 'c', 'd', 'e', 'f', 'g',
        'h', 'i', 'j', 'k', 'l', 'm', 'n', 'o', 'p', 'q', 'r', 's', 't', 'u', 'v', 'w', 'x', 'y', 'z',
        'A', 'B', 'C', 'D', 'E', 'F', 'G', 'H', 'I', 'J', 'K', 'L', 'M', 'N', 'O', 'P', 'Q', 'R', 'S',
        'T', 'U', 'V', 'W', 'X', 'Y', 'Z',
    ]
}

/// The decimal digits, in the order the game-id generator indexes them.
pub open spec fn digit_symbols() -> Seq<char> {
    seq!['1', '2', '3', '4', '5', '6', '7', '8', '9', '0']
}

/// Every character of `s` is drawn from `alphabet`.
pub open spec fn drawn_from(s: Seq<char>, alphabet: Seq<char>) -> bool {
    forall|i: int| 0 <= i < s.len() ==> alphabet.contains(#[trigger] s[i])
}

/// The characters are ASCII.
pub open spec fn all_ascii(chars: Seq<char>) -> bool {
    forall|i: int| 0 <= i < chars.len() ==> (#[trigger] chars[i] as nat) < 128
}

/// A text of `size` characters, each drawn at random from `alphabet`.
///
/// Trusted: `nanoid::format` with the crate's default random source. Its
/// source pushes only characters of the alphabet and returns once the text
/// is `size` bytes long, which is `size` characters for an ASCII alphabet.
/// It asserts that the alphabet has at most 255 symbols, computes `8 * size`,
/// and loops forever on an empty alphabet or a size of zero; `requires`
/// leaves those inputs out. Which characters come out is left open: they
/// are random.
#[verifier::external_body]
fn random_text(alphabet: &[char], size: usize) -> (r: String)
    requires
        0 < alphabet@.len() <= 255,
        all_ascii(alphabet@),
        0 < size <= usize::MAX / 8,
    ensures
        r@.len() == size,
        drawn_from(r@, alphabet@),
{
    nanoid::format(nanoid::rngs::default, alphabet, size)
}

/// The default token alphabet.
pub(crate) fn url_safe_alphabet() -> (r: Vec<char>)
    ensures
        r@ == url_safe_symbols(),
        all_ascii(r@),
{
    vec![
        '_', '-', '0', '1', '2', '3', '4', '5', '6', '7', '8', '9', 'a', 'b', 'c', 'd', 'e', 'f', 'g',
        'h', 'i', 'j', 'k', 'l', 'm', 'n', 'o', 'p', 'q', 'r', 's', 't', 'u', 'v', 'w', 'x', 'y', 'z',
        'A', 'B', 'C', 'D', 'E', 'F', 'G', 'H', 'I', 'J', 'K', 'L', 'M', 'N', 'O', 'P', 'Q', 'R', 'S',
        'T', 'U', 'V', 'W', 'X', 'Y', 'Z',
    ]
}

/// A random token of `size` URL-safe characters.
pub fn random_token(size: usize) -> (r: String)
    requires
        0 < size <= usize::MAX / 8,
    ensures
        r@.len() == size,
        drawn_from(r@, url_safe_symbols()),
{
    let alphabet = url_safe_alphabet();
    random_text(alphabet.as_slice(), size)
}

/// A random text of `size` decimal digits.
pub fn random_digits(size: usize) -> (r: String)
    requires
        0 < size <= usize::MAX / 8,
    ensures
        r@.len() == size,
        drawn_from(r@, digit_symbols()),
{
    let digits: Vec<char> = vec!['1', '2', '3', '4', '5', '6', '7', '8', '9', '0'];
    random_text(digits.as_slice(), size)
}

/// The character may appear in the text of a UUID: a lowercase hex digit or
/// a hyphen.
pub open spec fn is_uuid_char(c: char) -> bool {
    c == '-' || ('0' <= c <= '9') || ('a' <= c <= 'f')
}

/// `s` has the shape of a hyphenated UUID text: 36 characters, hyphens at
/// 8, 13, 18 and 23, lowercase hex digits elsewhere.
pub open spec fn is_uuid_text(s: Seq<char>) -> bool {
    &&& s.len() == 36
    &&& forall|i: int| 0 <= i < 36 ==> is_uuid_char(#[trigger] s[i])
    &&& forall|i: int| 0 <= i < 36 ==> ((#[trigger] s[i] == '-') <==> (i == 8 || i == 13 || i == 18 || i == 23))
}

/// `s` is the text of a version 4 UUID of the RFC 4122 variant: a UUID text
/// whose version digit (at 14) is `4` and whose variant digit (at 19) has
/// its top bits `10`, so is one of `8`, `9`, `a`, `b`.
pub open spec fn is_uuid_v4_text(s: Seq<char>) -> bool {
    &&& is_uuid_text(s)
    &&& s[14] == '4'
    &&& (s[19] == '8' || s[19] == '9' || s[19] == 'a' || s[19] == 'b')
}

/// The text of a fresh random (version 4) UUID.
///
/// Trusted: `uuid::Uuid::new_v4` and its `Display`, which writes the UUID as
/// lowercase hyphenated hex. `new_v4` masks random bits so that the version
/// nibble is 4 and the variant bits are `10`; the rest is random, so only
/// the shape, the version and the variant are stated.
#[verifier::external_body]
pub(crate) fn random_uuid_text() -> (r: String)
    ensures
        is_uuid_v4_text(r@),
{
    uuid::Uuid::new_v4().to_string()
}

/// The text of a fresh time-ordered (version 7) UUID.
///
/// Trusted: `uuid::Uuid::now_v7` and its `Display`, which writes the UUID as
/// lowercase hyphenated hex. The value depends on the clock and on chance, so
/// only its shape is stated.
#[verifier::external_body]
pub(crate) fn time_ordered_uuid_text() -> (r: String)
    ensures
        is_uuid_text(r@),
{
    uuid::Uuid::now_v7().to_string()
}

/// `t` is a text of `size` characters that begins with `prefix` and goes on
/// with characters drawn from `alphabet`.
pub open spec fn completes(t: Seq<char>, prefix: Seq<char>, alphabet: Seq<char>, size: nat) -> bool {
    &&& t.len() == size
    &&& prefix.len() <= size
    &&& forall|i: int| 0 <= i < prefix.len() ==> #[trigger] t[i] == prefix[i]
    &&& forall|i: int| prefix.len() <= i < size ==> alphabet.contains(#[trigger] t[i])
}

/// Every text that `completes` the prefix is in `taken`: no such text is free.
pub open spec fn all_completions_taken(taken: Seq<Seq<char>>, prefix: Seq<char>, alphabet: Seq<char>, size: nat) -> bool {
    forall|t: Seq<char>| #[trigger] completes(t, prefix, alphabet, size) ==> taken.contains(t)
}

/// A text of `size` characters beginning with `prefix` and going on with
/// characters of `alphabet` that is not in `taken`, found by a scan in the
/// alphabet's order; `None` exactly when every such text is taken.
pub fn free_completion(taken: &Vec<String>, prefix: &mut Vec<char>, alphabet: &Vec<char>, size: usize) -> (r: Option<String>)
    requires
        old(prefix)@.len() <= size,
    ensures
        final(prefix)@ == old(prefix)@,
        r matches Some(t) ==> completes(t@, old(prefix)@, alphabet@, size as nat) && !string_views(taken@).contains(t@),
        r is None <==> all_completions_taken(string_views(taken@), old(prefix)@, alphabet@, size as nat),
    decreases size - old(prefix)@.len(),
{
    let ghost p0 = prefix@;
    if prefix.len() == size {
        let t = text_of(prefix.as_slice());
        proof {
            assert forall|u: Seq<char>| #[trigger] completes(u, p0, alphabet@, size as nat) implies u == t@ by {
                assert(u =~= t@);
            }
        }
        if text_listed(taken, &t) {
            return None;
        }
        assert(completes(t@, p0, alphabet@, size as nat));
        return Some(t);
    }
    let mut i: usize = 0;
    while i < alphabet.len()
        invariant
            i <= alphabet@.len(),
            prefix@ == p0,
            p0 == old(prefix)@,
            p0.len() < size,
            forall|j: int| 0 <= j < i ==> all_completions_taken(string_views(taken@), #[trigger] p0.push(alphabet@[j]), alphabet@, size as nat),
        decreases alphabet@.len() - i,
    {
        let c = alphabet[i];
        prefix.push(c);
        let found = free_completion(taken, prefix, alphabet, size);
        prefix.pop();
        proof {
            assert(prefix@ =~= p0);
        }
        match found {
            Some(t) => {
                proof {
                    assert(alphabet@.contains(t@[p0.len() as int])) by {
                        assert(t@[p0.len() as int] == alphabet@[i as int]);
                    }
                    assert(completes(t@, p0, alphabet@, size as nat));
                    if all_completions_taken(string_views(taken@), p0, alphabet@, size as nat) {
                        assert(string_views(taken@).contains(t@));
                    }
                }
                return Some(t);
            },
            None => {},
        }
        i = i + 1;
    }
    proof {
        assert forall|t: Seq<char>| #[trigger] completes(t, p0, alphabet@, size as nat) implies string_views(taken@).contains(t) by {
            let c = t[p0.len() as int];
            assert(alphabet@.contains(c));
            let j = choose|j: int| 0 <= j < alphabet@.len() && alphabet@[j] == c;
            let q = p0.push(alphabet@[j]);
            assert(all_completions_taken(string_views(taken@), q, alphabet@, size as nat));
            assert(completes(t, q, alphabet@, size as nat));
        }
    }
    None
}

/// A text of `size` characters drawn from `alphabet` that is not in `taken`;
/// `None` exactly when every such text is taken.
pub fn free_text(taken: &Vec<String>, alphabet: &Vec<char>, size: usize) -> (r: Option<String>)
    ensures
        r matches Some(t) ==> t@.len() == size && drawn_from(t@, alphabet@) && !string_views(taken@).contains(t@),
        r is None <==> all_completions_taken(string_views(taken@), Seq::empty(), alphabet@, size as nat),
{
    let mut prefix: Vec<char> = Vec::new();
    let r = free_completion(taken, &mut prefix, alphabet, size);
    proof {
        if r is Some {
            let t = r->0;
            assert forall|i: int| 0 <= i < t@.len() implies alphabet@.contains(#[trigger] t@[i]) by {
                assert(completes(t@, Seq::empty(), alphabet@, size as nat));
            }
        }
    }
    r
}

} // verus!
