//! Base64, UTF-8 and percent-encoding of texts.

use crate::error::{Fault, SubscriptionError};
use crate::text::{self, to_chars, trim};
use vstd::prelude::*;
use vstd::utf8::*;

verus! {

// ---------------------------------------------------------------------------
// UTF-8
// ---------------------------------------------------------------------------

/// `String::from_utf8` gives the text that the bytes encode, and an error exactly where
/// they are not valid UTF-8. Nothing is said of the error.
pub assume_specification[ std::string::String::from_utf8 ](bytes: std::vec::Vec<u8>) -> (read:
    std::result::Result<std::string::String, std::string::FromUtf8Error>)
    ensures
        match read {
            Ok(t) => valid_utf8(bytes@) && t@ == decode_utf8(bytes@),
            Err(_) => !valid_utf8(bytes@),
        },
;

/// The text that bytes encode in UTF-8, if they do.
pub open spec fn utf8_decoded(bytes: Seq<u8>) -> Option<Seq<char>> {
    if valid_utf8(bytes) {
        Some(decode_utf8(bytes))
    } else {
        None
    }
}

/// The text in the output of a command, where the command gave one and it is UTF-8.
pub open spec fn output_text(output: Option<Seq<u8>>) -> Option<Seq<char>> {
    match output {
        Some(bytes) => utf8_decoded(bytes),
        None => None,
    }
}

/// Reads the output of a command as text.
pub fn read_output(output: Option<Vec<u8>>) -> (text: Option<String>)
    ensures
        output_text(
            match output {
                Some(bytes) => Some(bytes@),
                None => None,
            },
        ) == (match text {
            Some(t) => Some(t@),
            None => None,
        }),
{
    match output {
        Some(bytes) => match String::from_utf8(bytes) {
            Ok(text) => Some(text),
            Err(_) => None,
        },
        None => None,
    }
}

// ---------------------------------------------------------------------------
// Base64
// ---------------------------------------------------------------------------

/// The character of six bits in the standard Base64 alphabet.
pub open spec fn base64_char(bits: int) -> char {
    if bits < 26 {
        (65 + bits) as char
    } else if bits < 52 {
        (71 + bits) as char
    } else if bits < 62 {
        (bits - 4) as char
    } else if bits == 62 {
        '+'
    } else {
        '/'
    }
}

/// Bytes in standard Base64: four characters for three bytes, filled up with `=` at the
/// end.
pub open spec fn base64_encoded(bytes: Seq<u8>) -> Seq<char>
    decreases bytes.len(),
{
    let first = bytes[0] as int;
    let second = bytes[1] as int;
    let third = bytes[2] as int;
    if bytes.len() == 0 {
        Seq::empty()
    } else if bytes.len() == 1 {
        seq![base64_char(first / 4), base64_char(first % 4 * 16), '=', '=']
    } else if bytes.len() == 2 {
        seq![
            base64_char(first / 4),
            base64_char(first % 4 * 16 + second / 16),
            base64_char(second % 16 * 4),
            '=',
        ]
    } else {
        seq![
            base64_char(first / 4),
            base64_char(first % 4 * 16 + second / 16),
            base64_char(second % 16 * 4 + third / 64),
            base64_char(third % 64),
        ] + base64_encoded(bytes.skip(3))
    }
}

/// The bytes of which a text is the standard Base64, if it is that of any.
pub open spec fn standard_base64(text: Seq<char>) -> Option<Seq<u8>> {
    if exists|bytes: Seq<u8>| base64_encoded(bytes) == text {
        Some(choose|bytes: Seq<u8>| base64_encoded(bytes) == text)
    } else {
        None
    }
}

/// `base64::engine::general_purpose::STANDARD.decode` on a text: the bytes that the engine
/// encodes to exactly this text, and an error exactly where there are none. It takes no
/// character outside its alphabet, no other padding than the full one and no bits that are
/// left over. Nothing is said of the error.
#[verifier::external_body]
fn engine_decode(text: &str) -> (bytes: Result<Vec<u8>, base64::DecodeError>)
    ensures
        match bytes {
            Ok(b) => base64_encoded(b@) == text@,
            Err(_) => forall|b: Seq<u8>| #[trigger] base64_encoded(b) != text@,
        },
{
    base64::Engine::decode(&base64::engine::general_purpose::STANDARD, text)
}

/// Decodes standard Base64.
pub(crate) fn decode_standard(text: &str) -> (bytes: Result<Vec<u8>, base64::DecodeError>)
    ensures
        match bytes {
            Ok(b) => standard_base64(text@) == Some(b@),
            Err(_) => standard_base64(text@) is None,
        },
{
    let bytes: Result<Vec<u8>, base64::DecodeError> = engine_decode(text);
    proof {
        if bytes is Ok {
            base64_reads_back(bytes->Ok_0@);
        }
    }
    bytes
}

proof fn lemma_base64_char(a: int, b: int)
    requires
        0 <= a < 64,
        0 <= b < 64,
    ensures
        base64_char(a) != '=',
        base64_char(a) == base64_char(b) ==> a == b,
{
}

proof fn lemma_base64_injective(a: Seq<u8>, b: Seq<u8>)
    requires
        base64_encoded(a) == base64_encoded(b),
    ensures
        a == b,
    decreases a.len(),
{
    let x = base64_encoded(a);
    let y = base64_encoded(b);
    if a.len() == 0 || b.len() == 0 {
        assert(x.len() == 0 && y.len() == 0);
        assert(a =~= b);
    } else {
        assert(x[0] == y[0] && x[1] == y[1] && x[2] == y[2] && x[3] == y[3]);
        lemma_quad(a);
        lemma_quad(b);
        lemma_base64_char(quad(a, 0), quad(b, 0));
        lemma_base64_char(quad(a, 1), quad(b, 1));
        lemma_base64_char(quad(a, 2), quad(b, 2));
        lemma_base64_char(quad(a, 3), quad(b, 3));
        lemma_base64_char(quad(b, 2), quad(a, 2));
        lemma_base64_char(quad(b, 3), quad(a, 3));
        if a.len() >= 3 {
            assert(b.len() >= 3);
            assert(x.skip(4) =~= base64_encoded(a.skip(3)));
            assert(y.skip(4) =~= base64_encoded(b.skip(3)));
            lemma_base64_injective(a.skip(3), b.skip(3));
            assert(a[0] == b[0] && a[1] == b[1] && a[2] == b[2]);
            assert(a =~= a.take(3) + a.skip(3));
            assert(b =~= b.take(3) + b.skip(3));
            assert(a.take(3) =~= b.take(3));
        } else {
            assert(a.len() == b.len());
            assert(a[0] == b[0]);
            assert(a =~= b);
        }
    }
}

/// The six bits behind a character of the first four of the Base64 of bytes.
spec fn quad(bytes: Seq<u8>, i: int) -> int {
    let first = bytes[0] as int;
    let second = if bytes.len() > 1 {
        bytes[1] as int
    } else {
        0
    };
    let third = if bytes.len() > 2 {
        bytes[2] as int
    } else {
        0
    };
    if i == 0 {
        first / 4
    } else if i == 1 {
        first % 4 * 16 + second / 16
    } else if i == 2 {
        second % 16 * 4 + third / 64
    } else {
        third % 64
    }
}

proof fn lemma_quad(bytes: Seq<u8>)
    requires
        bytes.len() > 0,
    ensures
        base64_encoded(bytes).len() >= 4,
        forall|i: int| 0 <= i < 4 ==> 0 <= #[trigger] quad(bytes, i) < 64,
        base64_encoded(bytes)[0] == base64_char(quad(bytes, 0)),
        base64_encoded(bytes)[1] == base64_char(quad(bytes, 1)),
        base64_encoded(bytes)[2] == if bytes.len() > 1 {
            base64_char(quad(bytes, 2))
        } else {
            '='
        },
        base64_encoded(bytes)[3] == if bytes.len() > 2 {
            base64_char(quad(bytes, 3))
        } else {
            '='
        },
{
}

/// Bytes in standard Base64 decode to themselves.
pub proof fn base64_reads_back(bytes: Seq<u8>)
    ensures
        standard_base64(base64_encoded(bytes)) == Some(bytes),
{
    let text = base64_encoded(bytes);
    let other = choose|b: Seq<u8>| base64_encoded(b) == text;
    lemma_base64_injective(other, bytes);
}

/// A character of the URL-safe Base64 alphabet as one of the standard alphabet.
pub open spec fn standard_char(c: char) -> char {
    if c == '-' {
        '+'
    } else if c == '_' {
        '/'
    } else {
        c
    }
}

/// How many `=` are missing from a Base64 text of so many bytes.
pub open spec fn missing_padding(bytes: nat) -> nat {
    ((4 - bytes % 4) % 4) as nat
}

/// A text in the standard alphabet.
pub open spec fn in_standard(s: Seq<char>) -> Seq<char> {
    s.map_values(|c: char| standard_char(c))
}

/// So many `=`.
pub open spec fn padding(count: nat) -> Seq<char> {
    Seq::new(count, |i: int| '=')
}

/// A trimmed text in the standard alphabet, filled up with `=` to a multiple of four bytes.
pub open spec fn padded_base64(s: Seq<char>) -> Seq<char> {
    let standard = in_standard(text::trimmed(s));
    standard + padding(missing_padding(encode_utf8(standard).len()))
}

/// Brings a Base64 text into the form that the standard engine takes: trimmed, in the
/// standard alphabet and padded.
pub fn pad_base64(input: &str) -> (padded: String)
    ensures
        padded@ == padded_base64(input@),
{
    let chars: Vec<char> = to_chars(input);
    let kept: &[char] = trim(chars.as_slice());
    let ghost standard = in_standard(text::trimmed(input@));
    let mut padded = String::new();
    for i in 0..kept.len()
        invariant
            kept@ == text::trimmed(input@),
            standard == in_standard(text::trimmed(input@)),
            padded@ == standard.take(i as int),
    {
        let c = kept[i];
        padded.push(
            if c == '-' {
                '+'
            } else if c == '_' {
                '/'
            } else {
                c
            },
        );
    }
    assert(padded@ =~= standard);
    let length: usize = padded.as_str().as_bytes().len();
    let missing: usize = (4 - length % 4) % 4;
    for i in 0..missing
        invariant
            padded@ == standard + padding(i as nat),
    {
        padded.push('=');
    }
    padded
}

/// The text in a Base64 text of either alphabet, padded or not.
pub open spec fn base64_text(s: Seq<char>) -> Result<Seq<char>, Fault> {
    unpacked_text(standard_base64(padded_base64(s)))
}

/// The text in what was decoded from Base64.
pub open spec fn unpacked_text(decoded: Option<Seq<u8>>) -> Result<Seq<char>, Fault> {
    match decoded {
        Some(bytes) => match utf8_decoded(bytes) {
            Some(text) => Ok(text),
            None => Err(Fault::Utf8),
        },
        None => Err(Fault::Base64),
    }
}

/// Reads what was decoded from Base64 as text.
pub fn unpack_text(decoded: Result<Vec<u8>, base64::DecodeError>) -> (text: Result<String, SubscriptionError>)
    ensures
        match text {
            Ok(t) => unpacked_text(decoded_bytes(decoded)) == Ok::<Seq<char>, Fault>(t@),
            Err(e) => unpacked_text(decoded_bytes(decoded)) == Err::<Seq<char>, Fault>(e@),
        },
        decoded matches Err(error) ==> text == Err::<String, SubscriptionError>(
            SubscriptionError::Base64(error),
        ),
{
    match decoded {
        Ok(bytes) => match String::from_utf8(bytes) {
            Ok(text) => Ok(text),
            Err(error) => Err(SubscriptionError::Utf8(error)),
        },
        Err(error) => Err(SubscriptionError::Base64(error)),
    }
}

/// The bytes in the answer of the Base64 engine.
pub open spec fn decoded_bytes(decoded: Result<Vec<u8>, base64::DecodeError>) -> Option<Seq<u8>> {
    match decoded {
        Ok(bytes) => Some(bytes@),
        Err(_) => None,
    }
}

/// Decodes a Base64 text of either alphabet, padded or not, to text.
pub fn decode_base64_to_string(input: &str) -> (text: Result<String, SubscriptionError>)
    ensures
        match text {
            Ok(t) => base64_text(input@) == Ok::<Seq<char>, Fault>(t@),
            Err(e) => base64_text(input@) == Err::<Seq<char>, Fault>(e@),
        },
{
    let padded: String = pad_base64(input);
    unpack_text(decode_standard(padded.as_str()))
}

/// Whether a character is of the standard Base64 alphabet.
pub open spec fn base64_letter(c: char) -> bool {
    'A' <= c <= 'Z' || 'a' <= c <= 'z' || '0' <= c <= '9' || c == '+' || c == '/'
}

/// Bytes in standard Base64 are a multiple of four characters, each of the alphabet or `=`.
pub proof fn base64_encoded_plain(bytes: Seq<u8>)
    ensures
        base64_encoded(bytes).len() % 4 == 0,
        forall|i: int|
            0 <= i < base64_encoded(bytes).len() ==> base64_letter(
                #[trigger] base64_encoded(bytes)[i],
            ) || base64_encoded(bytes)[i] == '=',
    decreases bytes.len(),
{
    let text = base64_encoded(bytes);
    if bytes.len() > 0 {
        lemma_quad(bytes);
        lemma_base64_letter(quad(bytes, 0));
        lemma_base64_letter(quad(bytes, 1));
        lemma_base64_letter(quad(bytes, 2));
        lemma_base64_letter(quad(bytes, 3));
        if bytes.len() >= 3 {
            let rest = base64_encoded(bytes.skip(3));
            base64_encoded_plain(bytes.skip(3));
            assert(text.len() == 4 + rest.len());
            assert forall|i: int| 0 <= i < text.len() implies base64_letter(#[trigger] text[i])
                || text[i] == '=' by {
                if i >= 4 {
                    assert(text[i] == rest[i - 4]);
                }
            }
        }
    }
}

proof fn lemma_base64_letter(bits: int)
    requires
        0 <= bits < 64,
    ensures
        base64_letter(base64_char(bits)),
{
}

/// Whether a text is the Base64 of bytes in either alphabet, with its padding or without
/// some of it.
pub open spec fn base64_of(text: Seq<char>, bytes: Seq<u8>) -> bool {
    exists|left_out: nat|
        left_out <= 2 && in_standard(text) + #[trigger] padding(left_out) == base64_encoded(bytes)
}

proof fn lemma_trimmed_start_standard(s: Seq<char>)
    ensures
        text::trimmed_start(in_standard(s)) == in_standard(text::trimmed_start(s)),
    decreases s.len(),
{
    if s.len() > 0 {
        assert(in_standard(s)[0] == standard_char(s[0]));
        assert(in_standard(s).skip(1) =~= in_standard(s.skip(1)));
        lemma_trimmed_start_standard(s.skip(1));
    }
}

proof fn lemma_trimmed_end_standard(s: Seq<char>)
    ensures
        text::trimmed_end(in_standard(s)) == in_standard(text::trimmed_end(s)),
    decreases s.len(),
{
    if s.len() > 0 {
        assert(in_standard(s).last() == standard_char(s.last()));
        assert(in_standard(s).drop_last() =~= in_standard(s.drop_last()));
        lemma_trimmed_end_standard(s.drop_last());
    }
}

/// It does not count in which of the two alphabets a Base64 text is.
pub proof fn alphabet_does_not_count(a: Seq<char>, b: Seq<char>)
    requires
        in_standard(a) == in_standard(b),
    ensures
        base64_text(a) == base64_text(b),
{
    lemma_trimmed_start_standard(a);
    lemma_trimmed_start_standard(b);
    lemma_trimmed_end_standard(text::trimmed_start(a));
    lemma_trimmed_end_standard(text::trimmed_start(b));
}

/// White space around a Base64 text does not count.
pub proof fn outer_white_space_does_not_count(front: Seq<char>, s: Seq<char>, back: Seq<char>)
    requires
        text::blank(front),
        text::blank(back),
    ensures
        base64_text(front + s + back) == base64_text(s),
{
    text::outer_blanks_are_trimmed(front, s, back);
}

/// It does not count whether the `=` that fill a Base64 text up are there, all or some of
/// them. The text has no white space at its end, which would part them from it.
pub proof fn padding_does_not_count(s: Seq<char>, count: nat)
    requires
        s.len() > 0 ==> !text::white_space(s.last()),
        count <= missing_padding(encode_utf8(in_standard(text::trimmed(s))).len()),
    ensures
        base64_text(s + padding(count)) == base64_text(s),
{
    let kept = text::trimmed(s);
    let standard = in_standard(kept);
    let filled = standard + padding(count);
    let length = encode_utf8(standard).len();
    let left = (missing_padding(length) - count) as nat;
    lemma_trimmed_padding(s, count);
    assert(in_standard(kept + padding(count)) =~= filled);
    lemma_padded_length(standard, count);
    lemma_missing_padding(length, count);
    assert(padded_base64(s + padding(count)) == filled + padding(left));
    assert(filled + padding(left) =~= standard + padding(missing_padding(length)));
}

proof fn lemma_missing_padding(length: nat, count: nat)
    requires
        count <= missing_padding(length),
    ensures
        missing_padding(length + count) == missing_padding(length) - count,
{
}

proof fn lemma_trimmed_padding(s: Seq<char>, count: nat)
    requires
        s.len() > 0 ==> !text::white_space(s.last()),
    ensures
        text::trimmed(s + padding(count)) == text::trimmed(s) + padding(count),
    decreases s.len(),
{
    let filled = s + padding(count);
    if s.len() == 0 {
        assert(filled =~= padding(count));
        assert(text::trimmed(s) + padding(count) =~= padding(count));
    } else if text::white_space(s[0]) {
        assert(filled.skip(1) =~= s.skip(1) + padding(count));
        assert(s.len() > 1);
        assert(s.skip(1).last() == s.last());
        lemma_trimmed_padding(s.skip(1), count);
    } else if count == 0 {
        assert(filled =~= s);
        assert(text::trimmed(s) + padding(count) =~= text::trimmed(s));
    } else {
        assert(filled[0] == s[0]);
        assert(filled.last() == '=');
    }
}

proof fn lemma_padded_length(s: Seq<char>, count: nat)
    ensures
        encode_utf8(s + padding(count)).len() == encode_utf8(s).len() + count,
    decreases s.len(),
{
    let filled = s + padding(count);
    if s.len() == 0 {
        assert(filled =~= padding(count));
        is_ascii_chars_encode_utf8(padding(count));
    } else {
        assert(filled.drop_first() =~= s.drop_first() + padding(count));
        lemma_padded_length(s.drop_first(), count);
    }
}

/// The Base64 of a text decodes to the text, whichever its alphabet and however much of its
/// padding is there, and whatever white space stands around it.
pub proof fn base64_text_reads_back(
    plain: Seq<char>,
    coded: Seq<char>,
    front: Seq<char>,
    back: Seq<char>,
)
    requires
        base64_of(coded, encode_utf8(plain)),
        text::blank(front),
        text::blank(back),
    ensures
        base64_text(front + coded + back) == Ok::<Seq<char>, Fault>(plain),
{
    let bytes = encode_utf8(plain);
    let full = base64_encoded(bytes);
    let standard = in_standard(coded);
    let left_out = choose|n: nat| n <= 2 && standard + #[trigger] padding(n) == full;
    base64_encoded_plain(bytes);
    assert forall|i: int| 0 <= i < standard.len() implies base64_letter(#[trigger] standard[i])
        || standard[i] == '=' by {
        assert(full[i] == standard[i]);
    }
    assert(text::trimmed(coded) == coded) by {
        if coded.len() > 0 {
            let end = coded.len() - 1;
            assert(standard[0] == standard_char(coded[0]));
            assert(standard[end] == standard_char(coded[end]));
            assert(base64_letter(standard[0]) || standard[0] == '=');
            assert(base64_letter(standard[end]) || standard[end] == '=');
        }
    }
    assert(is_ascii_chars(standard)) by {
        assert forall|i: int| 0 <= i < standard.len() implies '\0' <= #[trigger] standard[i]
            <= '\u{7f}' by {
            lemma_base64_ascii(standard[i]);
        }
    }
    is_ascii_chars_encode_utf8(standard);
    assert(full.len() == standard.len() + left_out);
    assert(missing_padding(encode_utf8(standard).len()) == left_out);
    assert(padded_base64(coded) =~= full);
    base64_reads_back(bytes);
    encode_utf8_valid_utf8(plain);
    encode_utf8_decode_utf8(plain);
    outer_white_space_does_not_count(front, coded, back);
}

/// The Base64 of a text, in either form, decodes to the text.
pub proof fn base64_form_reads_back(plain: Seq<char>, coded: Seq<char>)
    requires
        base64_of(coded, encode_utf8(plain)),
    ensures
        base64_text(coded) == Ok::<Seq<char>, Fault>(plain),
{
    let none = Seq::<char>::empty();
    base64_text_reads_back(plain, coded, none, none);
    assert(none + coded + none =~= coded);
}

/// The Base64 of bytes in either alphabet holds nothing but letters, digits, `+`, `/`, `-`,
/// `_` and `=`.
pub proof fn base64_form_plain(coded: Seq<char>, bytes: Seq<u8>)
    requires
        base64_of(coded, bytes),
    ensures
        forall|i: int|
            0 <= i < coded.len() ==> base64_letter(#[trigger] coded[i]) || coded[i] == '-'
                || coded[i] == '_' || coded[i] == '=',
{
    let full = base64_encoded(bytes);
    let standard = in_standard(coded);
    let left_out = choose|n: nat| n <= 2 && standard + #[trigger] padding(n) == full;
    base64_encoded_plain(bytes);
    assert forall|i: int| 0 <= i < coded.len() implies base64_letter(#[trigger] coded[i])
        || coded[i] == '-' || coded[i] == '_' || coded[i] == '=' by {
        assert(full[i] == standard[i]);
        assert(standard[i] == standard_char(coded[i]));
    }
}

/// What the standard engine decodes of the Base64 of bytes in either form are these bytes,
/// if it decodes anything.
pub proof fn base64_form_bytes(coded: Seq<char>, bytes: Seq<u8>)
    requires
        base64_of(coded, bytes),
    ensures
        standard_base64(coded) is Some ==> standard_base64(coded) == Some(bytes),
{
    if standard_base64(coded) is Some {
        let other = standard_base64(coded)->0;
        let full = base64_encoded(bytes);
        let standard = in_standard(coded);
        let left_out = choose|n: nat| n <= 2 && standard + #[trigger] padding(n) == full;
        assert(base64_encoded(other) == coded);
        base64_encoded_plain(other);
        base64_encoded_plain(bytes);
        assert forall|i: int| 0 <= i < coded.len() implies standard[i] == coded[i] by {
            assert(base64_letter(base64_encoded(other)[i]) || base64_encoded(other)[i] == '=');
        }
        assert(standard =~= coded);
        assert(full.len() == coded.len() + left_out);
        assert(left_out == 0);
        assert(full =~= coded);
        base64_reads_back(bytes);
    }
}

/// The standard Base64 of bytes is one of their forms.
pub proof fn standard_is_a_form(bytes: Seq<u8>)
    ensures
        base64_of(base64_encoded(bytes), bytes),
{
    let full = base64_encoded(bytes);
    base64_encoded_plain(bytes);
    assert forall|i: int| 0 <= i < full.len() implies in_standard(full)[i] == full[i] by {
        assert(base64_letter(full[i]) || full[i] == '=');
    }
    assert(in_standard(full) + padding(0) =~= full);
}

proof fn lemma_base64_ascii(c: char)
    requires
        base64_letter(c) || c == '=',
    ensures
        '\0' <= c <= '\u{7f}',
{
}

// ---------------------------------------------------------------------------
// Percent-encoding
// ---------------------------------------------------------------------------

/// The value of a hexadecimal digit.
pub open spec fn hex_value(digit: u8) -> Option<int> {
    if 48 <= digit <= 57 {
        Some(digit - 48)
    } else if 65 <= digit <= 70 {
        Some(digit - 55)
    } else if 97 <= digit <= 102 {
        Some(digit - 87)
    } else {
        None
    }
}

/// Bytes in which each `%` with two hexadecimal digits behind it is replaced by the byte
/// that they stand for.
pub open spec fn percent_decoded(bytes: Seq<u8>) -> Seq<u8>
    decreases bytes.len(),
{
    if bytes.len() == 0 {
        Seq::empty()
    } else if bytes.len() >= 3 && bytes[0] == 37 && hex_value(bytes[1]) is Some && hex_value(
        bytes[2],
    ) is Some {
        seq![(hex_value(bytes[1])->0 * 16 + hex_value(bytes[2])->0) as u8] + percent_decoded(
            bytes.skip(3),
        )
    } else {
        seq![bytes[0]] + percent_decoded(bytes.skip(1))
    }
}

/// A text with its percent-encoding undone, where the result is UTF-8.
pub open spec fn url_decoded(s: Seq<char>) -> Option<Seq<char>> {
    utf8_decoded(percent_decoded(encode_utf8(s)))
}

/// `urlencoding::decode`: undoes percent-encoding in the bytes of the text, leaves a `%`
/// without two hexadecimal digits and a `+` as they are, and gives an error exactly where
/// the bytes are then not valid UTF-8. Nothing is said of the error.
#[verifier::external_body]
pub(crate) fn url_decode(text: &str) -> (decoded: Result<String, std::string::FromUtf8Error>)
    ensures
        match decoded {
            Ok(t) => url_decoded(text@) == Some(t@),
            Err(_) => url_decoded(text@) is None,
        },
{
    match urlencoding::decode(text) {
        Ok(decoded) => Ok(decoded.into_owned()),
        Err(error) => Err(error),
    }
}

/// Undoes percent-encoding; nothing where the result is not UTF-8.
pub fn decode_url_component(input: &str) -> (text: Option<String>)
    ensures
        match text {
            Some(t) => url_decoded(input@) == Some(t@),
            None => url_decoded(input@) is None,
        },
{
    match url_decode(input) {
        Ok(text) => Some(text),
        Err(_) => None,
    }
}

/// The upper-case hexadecimal digit of a value.
pub open spec fn hex_char(value: int) -> char {
    if value < 10 {
        (48 + value) as char
    } else {
        (55 + value) as char
    }
}

/// The bytes that stand for themselves in percent-encoding: letters and digits of ASCII,
/// `-`, `.`, `_` and `~`.
pub open spec fn unreserved(byte: u8) -> bool {
    ||| 48 <= byte <= 57
    ||| 65 <= byte <= 90
    ||| 97 <= byte <= 122
    ||| byte == 45
    ||| byte == 46
    ||| byte == 95
    ||| byte == 126
}

/// One byte in percent-encoding.
pub open spec fn percent_byte(byte: u8) -> Seq<char> {
    if unreserved(byte) {
        seq![byte as char]
    } else {
        seq!['%', hex_char(byte as int / 16), hex_char(byte as int % 16)]
    }
}

/// Bytes in percent-encoding.
pub open spec fn percent_encoded(bytes: Seq<u8>) -> Seq<char>
    decreases bytes.len(),
{
    if bytes.len() == 0 {
        Seq::empty()
    } else {
        percent_byte(bytes[0]) + percent_encoded(bytes.skip(1))
    }
}

/// A text in percent-encoding.
pub open spec fn url_encoded(s: Seq<char>) -> Seq<char> {
    percent_encoded(encode_utf8(s))
}

/// `urlencoding::encode`: the bytes of the text in percent-encoding.
#[verifier::external_body]
pub(crate) fn url_encode(text: &str) -> (encoded: String)
    ensures
        encoded@ == url_encoded(text@),
{
    urlencoding::encode(text).into_owned()
}

/// Whether a character stands for itself in percent-encoding.
pub open spec fn unreserved_char(c: char) -> bool {
    (c as int) < 128 && unreserved(c as u8)
}

/// A text in percent-encoding holds nothing but unreserved characters and `%`.
pub proof fn url_encoded_plain(s: Seq<char>)
    ensures
        forall|i: int|
            0 <= i < url_encoded(s).len() ==> unreserved_char(#[trigger] url_encoded(s)[i])
                || url_encoded(s)[i] == '%',
{
    lemma_percent_encoded_plain(encode_utf8(s));
}

proof fn lemma_hex_char(value: int)
    requires
        0 <= value < 16,
    ensures
        unreserved_char(hex_char(value)),
        hex_value(hex_char(value) as u8) == Some(value),
{
}

proof fn lemma_percent_encoded_plain(bytes: Seq<u8>)
    ensures
        forall|i: int|
            0 <= i < percent_encoded(bytes).len() ==> unreserved_char(
                #[trigger] percent_encoded(bytes)[i],
            ) || percent_encoded(bytes)[i] == '%',
    decreases bytes.len(),
{
    if bytes.len() > 0 {
        let front = percent_byte(bytes[0]);
        let rest = percent_encoded(bytes.skip(1));
        lemma_percent_encoded_plain(bytes.skip(1));
        lemma_hex_char(bytes[0] as int / 16);
        lemma_hex_char(bytes[0] as int % 16);
        assert forall|i: int| 0 <= i < percent_encoded(bytes).len() implies unreserved_char(
            #[trigger] percent_encoded(bytes)[i],
        ) || percent_encoded(bytes)[i] == '%' by {
            if i >= front.len() {
                assert(percent_encoded(bytes)[i] == rest[i - front.len()]);
            } else {
                assert(percent_encoded(bytes)[i] == front[i]);
            }
        }
    }
}

/// The bytes of a text of ASCII characters.
spec fn ascii_bytes(s: Seq<char>) -> Seq<u8> {
    s.map_values(|c: char| c as u8)
}

proof fn lemma_percent_read_back(bytes: Seq<u8>)
    ensures
        percent_decoded(ascii_bytes(percent_encoded(bytes))) == bytes,
    decreases bytes.len(),
{
    let coded = ascii_bytes(percent_encoded(bytes));
    if bytes.len() == 0 {
        assert(coded =~= Seq::<u8>::empty());
    } else {
        let byte = bytes[0];
        let front = percent_byte(byte);
        let rest = bytes.skip(1);
        lemma_percent_read_back(rest);
        assert(coded.skip(front.len() as int) =~= ascii_bytes(percent_encoded(rest)));
        assert(coded[0] == front[0] as u8);
        if !unreserved(byte) {
            lemma_hex_char(byte as int / 16);
            lemma_hex_char(byte as int % 16);
            assert(coded[1] == front[1] as u8);
            assert(coded[2] == front[2] as u8);
            assert(percent_decoded(coded)[0] == byte);
        }
        assert(percent_decoded(coded) =~= seq![byte] + percent_decoded(
            ascii_bytes(percent_encoded(rest)),
        ));
        assert(bytes =~= seq![byte] + rest);
    }
}

proof fn lemma_ascii_char(c: char)
    requires
        unreserved_char(c) || c == '%',
    ensures
        '\0' <= c <= '\u{7f}',
{
}

/// A text in percent-encoding decodes to itself.
pub proof fn url_reads_back(s: Seq<char>)
    ensures
        url_decoded(url_encoded(s)) == Some(s),
{
    let coded = url_encoded(s);
    url_encoded_plain(s);
    assert(is_ascii_chars(coded)) by {
        assert forall|i: int| 0 <= i < coded.len() implies '\0' <= #[trigger] coded[i]
            <= '\u{7f}' by {
            lemma_ascii_char(coded[i]);
        }
    }
    is_ascii_chars_encode_utf8(coded);
    assert(encode_utf8(coded) =~= ascii_bytes(coded));
    lemma_percent_read_back(encode_utf8(s));
    encode_utf8_valid_utf8(s);
    encode_utf8_decode_utf8(s);
}

// ---------------------------------------------------------------------------
// What is done to Base64 before it is decoded
// ---------------------------------------------------------------------------

/// A Base64 text is brought into the standard form character by character: of the trimmed
/// text each `-` becomes `+` and each `_` becomes `/`, and behind it stand only `=`, as few as
/// make its bytes a multiple of four.
pub proof fn padded_by_character(s: Seq<char>)
    ensures
        ({
            let kept = text::trimmed(s);
            let padded = padded_base64(s);
            &&& kept.len() <= padded.len() < kept.len() + 4
            &&& forall|i: int|
                0 <= i < kept.len() ==> #[trigger] padded[i] == if kept[i] == '-' {
                    '+'
                } else if kept[i] == '_' {
                    '/'
                } else {
                    kept[i]
                }
            &&& forall|i: int| kept.len() <= i < padded.len() ==> #[trigger] padded[i] == '='
            &&& (encode_utf8(padded.take(kept.len() as int)).len() + padded.len() - kept.len()) % 4
                == 0
        }),
{
    let kept = text::trimmed(s);
    let standard = in_standard(kept);
    let padded = padded_base64(s);
    assert(padded.take(kept.len() as int) =~= standard);
    let bytes = encode_utf8(standard).len();
    assert((bytes + missing_padding(bytes)) % 4 == 0) by (nonlinear_arith)
        requires
            missing_padding(bytes) == ((4 - bytes % 4) % 4) as nat,
    ;
}

/// What is packed in Base64 is read exactly where the text is Base64 in the standard form and
/// the bytes in it are UTF-8; else it is said which of the two fails.
pub proof fn base64_text_or_fault(s: Seq<char>)
    ensures
        match standard_base64(padded_base64(s)) {
            None => base64_text(s) == Err::<Seq<char>, Fault>(Fault::Base64),
            Some(bytes) => if valid_utf8(bytes) {
                base64_text(s) == Ok::<Seq<char>, Fault>(decode_utf8(bytes))
            } else {
                base64_text(s) == Err::<Seq<char>, Fault>(Fault::Utf8)
            },
        },
{
}

/// The output of a command is read exactly where there is one and it is UTF-8, and then it is
/// the text that was written.
pub proof fn output_reads_back(written: Seq<char>, bytes: Seq<u8>)
    ensures
        output_text(Some(encode_utf8(written))) == Some(written),
        output_text(Some(bytes)) is Some <==> valid_utf8(bytes),
        output_text(None) is None,
{
    encode_utf8_valid_utf8(written);
    encode_utf8_decode_utf8(written);
}

} // verus!
