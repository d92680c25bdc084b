//! The calls this library makes into other crates: URL parsing, percent
//! encoding, regular expressions and random identifiers.
use vstd::prelude::*;

verus! {

/// The serialization of the URL that `url::Url::parse` makes of a text, or
/// `None` where it refuses the text.
pub uninterp spec fn parsed_url(s: Seq<char>) -> Option<Seq<char>>;

/// The serialization of the URL that `url::Url::join` makes of a reference
/// read against a base, or `None` where the base or the reference is refused.
pub uninterp spec fn joined_url(base: Seq<char>, reference: Seq<char>) -> Option<Seq<char>>;

/// Whether `c` is an ASCII letter or digit.
pub open spec fn ascii_alphanumeric(c: char) -> bool {
    ('a' <= c && c <= 'z') || ('A' <= c && c <= 'Z') || ('0' <= c && c <= '9')
}

/// The bytes of the UTF-8 encoding of `c`.
pub open spec fn utf8_bytes(c: char) -> Seq<int> {
    let x = c as u32 as int;
    if x < 0x80 {
        seq![x]
    } else if x < 0x800 {
        seq![0xC0 + x / 64, 0x80 + x % 64]
    } else if x < 0x10000 {
        seq![0xE0 + x / 4096, 0x80 + (x / 64) % 64, 0x80 + x % 64]
    } else {
        seq![0xF0 + x / 262144, 0x80 + (x / 4096) % 64, 0x80 + (x / 64) % 64, 0x80 + x % 64]
    }
}

/// The uppercase hexadecimal digit of `d % 16`.
pub open spec fn hex_digit(d: int) -> char {
    seq!['0', '1', '2', '3', '4', '5', '6', '7', '8', '9', 'A', 'B', 'C', 'D', 'E', 'F'][d % 16]
}

/// The bytes `bs`, each written `%` and two uppercase hexadecimal digits.
pub open spec fn percent_bytes(bs: Seq<int>) -> Seq<char>
    decreases bs.len(),
{
    if bs.len() == 0 {
        Seq::empty()
    } else {
        percent_bytes(bs.drop_last()) + seq!['%', hex_digit(bs.last() / 16), hex_digit(bs.last())]
    }
}

/// What `percent_encoding::utf8_percent_encode` with `NON_ALPHANUMERIC` makes
/// of a string: ASCII letters and digits are kept, every other byte of the
/// UTF-8 encoding is written `%` and two uppercase hexadecimal digits.
pub open spec fn percent_encoded(s: Seq<char>) -> Seq<char>
    decreases s.len(),
{
    if s.len() == 0 {
        Seq::empty()
    } else {
        percent_encoded(s.drop_last()) + if ascii_alphanumeric(s.last()) {
            seq![s.last()]
        } else {
            percent_bytes(utf8_bytes(s.last()))
        }
    }
}

proof fn lemma_percent_bytes_chars(bs: Seq<int>)
    requires
        forall|i: int| 0 <= i < bs.len() ==> #[trigger] bs[i] >= 0,
    ensures
        forall|i: int|
            0 <= i < percent_bytes(bs).len() ==> alphanumeric_or_percent(#[trigger] percent_bytes(bs)[i]),
    decreases bs.len(),
{
    if bs.len() > 0 {
        lemma_percent_bytes_chars(bs.drop_last());
        let prev = percent_bytes(bs.drop_last());
        let b = bs.last();
        let tail = seq!['%', hex_digit(b / 16), hex_digit(b)];
        assert(alphanumeric_or_percent(hex_digit(b / 16)));
        assert(alphanumeric_or_percent(hex_digit(b)));
        assert forall|i: int| 0 <= i < percent_bytes(bs).len() implies alphanumeric_or_percent(
            #[trigger] percent_bytes(bs)[i],
        ) by {
            if i < prev.len() {
                assert(percent_bytes(bs)[i] == prev[i]);
            } else {
                assert(percent_bytes(bs)[i] == tail[i - prev.len()]);
            }
        }
    }
}

/// Every character of a percent-encoded text is an ASCII letter or digit, or
/// `%`.
pub proof fn lemma_percent_encoded_chars(s: Seq<char>)
    ensures
        forall|i: int|
            0 <= i < percent_encoded(s).len() ==> alphanumeric_or_percent(#[trigger] percent_encoded(s)[i]),
    decreases s.len(),
{
    if s.len() > 0 {
        lemma_percent_encoded_chars(s.drop_last());
        let prev = percent_encoded(s.drop_last());
        let c = s.last();
        let tail = if ascii_alphanumeric(c) {
            seq![c]
        } else {
            percent_bytes(utf8_bytes(c))
        };
        if !ascii_alphanumeric(c) {
            lemma_percent_bytes_chars(utf8_bytes(c));
        }
        assert forall|i: int| 0 <= i < percent_encoded(s).len() implies alphanumeric_or_percent(
            #[trigger] percent_encoded(s)[i],
        ) by {
            if i < prev.len() {
                assert(percent_encoded(s)[i] == prev[i]);
            } else {
                assert(percent_encoded(s)[i] == tail[i - prev.len()]);
            }
        }
    }
}

/// Whether `regex::Regex::new` accepts a pattern.
pub uninterp spec fn regex_valid(pattern: Seq<char>) -> bool;

/// Whether the regular expression a valid pattern compiles to matches
/// somewhere in a text (`regex::Regex::is_match`).
pub uninterp spec fn regex_matches(pattern: Seq<char>, text: Seq<char>) -> bool;

/// Relies on `url::Url::parse` and on the serialization of its result
/// (`From<Url> for String`).
#[verifier::external_body]
pub(crate) fn parse_url(s: &str) -> (r: Option<String>)
    ensures
        r is Some <==> parsed_url(s@) is Some,
        r matches Some(u) ==> u@ == parsed_url(s@)->0,
{
    url::Url::parse(s).ok().map(String::from)
}

/// Relies on `url::Url::parse` for the base and `url::Url::join` for the
/// reference, and on the serialization of the result.
#[verifier::external_body]
pub(crate) fn join_url(base: &str, reference: &str) -> (r: Option<String>)
    ensures
        r is Some <==> joined_url(base@, reference@) is Some,
        r matches Some(u) ==> u@ == joined_url(base@, reference@)->0,
{
    url::Url::parse(base).and_then(|b| b.join(reference)).ok().map(String::from)
}

/// Whether `c` is an ASCII letter or digit, or `%`.
pub open spec fn alphanumeric_or_percent(c: char) -> bool {
    ('a' <= c && c <= 'z') || ('A' <= c && c <= 'Z') || ('0' <= c && c <= '9') || c == '%'
}

/// Relies on `percent_encoding::utf8_percent_encode` with `NON_ALPHANUMERIC`
/// and its `Display`: ASCII letters and digits are kept, every other byte
/// becomes `%` and two uppercase hexadecimal digits (`percent_encode_byte`).
#[verifier::external_body]
pub(crate) fn percent_encode(s: &str) -> (r: String)
    ensures
        r@ == percent_encoded(s@),
{
    percent_encoding::utf8_percent_encode(s, percent_encoding::NON_ALPHANUMERIC).to_string()
}

/// Relies on `regex::Regex::new`: whether the pattern compiles.
#[verifier::external_body]
pub(crate) fn regex_compiles(pattern: &str) -> (r: bool)
    ensures
        r == regex_valid(pattern@),
{
    regex::Regex::new(pattern).is_ok()
}

/// Relies on `regex::Regex::new` and `regex::Regex::is_match`.
#[verifier::external_body]
pub(crate) fn regex_is_match(pattern: &str, text: &str) -> (r: bool)
    requires
        regex_valid(pattern@),
    ensures
        r == regex_matches(pattern@, text@),
{
    match regex::Regex::new(pattern) {
        Ok(re) => re.is_match(text),
        Err(_) => false,
    }
}

/// Whether `c` is a lowercase hexadecimal digit or `-`.
pub open spec fn uuid_char(c: char) -> bool {
    ('0' <= c && c <= '9') || ('a' <= c && c <= 'f') || c == '-'
}

/// Relies on `uuid::Uuid::new_v4` and its `Display` form, the hyphenated
/// lowercase text: 36 characters, hexadecimal digits and hyphens. Which
/// identifier comes out is left to chance.
#[verifier::external_body]
pub(crate) fn random_uuid() -> (r: String)
    ensures
        r@.len() == 36,
        forall|i: int| 0 <= i < r@.len() ==> uuid_char(#[trigger] r@[i]),
{
    uuid::Uuid::new_v4().to_string()
}

} // verus!
