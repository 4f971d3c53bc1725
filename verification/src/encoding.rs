//! The two text forms a digest is published in: lower-case hexadecimal and
//! padded base64 over the standard alphabet.
use base64::Engine;
use vstd::prelude::*;

verus! {

/// The lower-case hexadecimal digit for a four-bit value: `0`-`9`, `a`-`f`.
pub open spec fn hex_digit(value: int) -> char
    recommends
        0 <= value < 16,
{
    if value < 10 {
        ('0' as int + value) as char
    } else {
        ('a' as int + (value - 10)) as char
    }
}

/// Two hexadecimal digits for every byte, the high half first.
pub open spec fn hex_lower(bytes: Seq<u8>) -> Seq<char> {
    Seq::new(
        2 * bytes.len(),
        |i: int|
            if i % 2 == 0 {
                hex_digit(bytes[i / 2] as int / 16)
            } else {
                hex_digit(bytes[i / 2] as int % 16)
            },
    )
}

/// The symbol that stands for a six-bit value in the standard alphabet:
/// `A`-`Z`, `a`-`z`, `0`-`9`, `+`, `/`.
pub open spec fn base64_symbol(value: int) -> char
    recommends
        0 <= value < 64,
{
    if value < 26 {
        ('A' as int + value) as char
    } else if value < 52 {
        ('a' as int + (value - 26)) as char
    } else if value < 62 {
        ('0' as int + (value - 52)) as char
    } else if value == 62 {
        '+'
    } else {
        '/'
    }
}

/// Byte `j` of `bytes`, or zero past its end.
pub open spec fn byte_or_zero(bytes: Seq<u8>, j: int) -> int {
    if 0 <= j < bytes.len() {
        bytes[j] as int
    } else {
        0
    }
}

/// The `k`-th group of six bits when `bytes` is read as one string of bits,
/// most significant bit first, with zero bits after its end.
pub open spec fn sextet(bytes: Seq<u8>, k: int) -> int {
    let first: int = 3 * (k / 4);
    if k % 4 == 0 {
        byte_or_zero(bytes, first) / 4
    } else if k % 4 == 1 {
        (byte_or_zero(bytes, first) % 4) * 16 + byte_or_zero(bytes, first + 1) / 16
    } else if k % 4 == 2 {
        (byte_or_zero(bytes, first + 1) % 16) * 4 + byte_or_zero(bytes, first + 2) / 64
    } else {
        byte_or_zero(bytes, first + 2) % 64
    }
}

/// Length of the padded base64 text for `len` bytes: four symbols for every
/// three bytes, the last group filled up.
pub open spec fn base64_len(len: nat) -> nat {
    4 * ((len + 2) / 3)
}

/// Base64 with the standard alphabet and `=` padding: one symbol for every
/// six bits that hold data, then padding up to a multiple of four symbols.
pub open spec fn base64_standard(bytes: Seq<u8>) -> Seq<char> {
    let symbols: nat = (4 * bytes.len() + 2) / 3;
    Seq::new(
        base64_len(bytes.len()),
        |k: int|
            if k < symbols {
                base64_symbol(sextet(bytes, k))
            } else {
                '='
            },
    )
}

/// The four-bit value of a hexadecimal digit of either case.
pub open spec fn hex_value(digit: char) -> Option<int> {
    let code: int = digit as int;
    if '0' as int <= code <= '9' as int {
        Some(code - '0' as int)
    } else if 'a' as int <= code <= 'f' as int {
        Some(code - 'a' as int + 10)
    } else if 'A' as int <= code <= 'F' as int {
        Some(code - 'A' as int + 10)
    } else {
        None
    }
}

/// The bytes that a hexadecimal text stands for: one for every two digits.
/// A text of odd length, or one with anything but digits in it, stands for
/// nothing.
pub open spec fn hex_decode(text: Seq<char>) -> Option<Seq<u8>> {
    if text.len() % 2 != 0 || exists|i: int|
        0 <= i < text.len() && hex_value(#[trigger] text[i]) is None {
        None
    } else {
        Some(
            Seq::new(
                text.len() / 2,
                |j: int|
                    (16 * hex_value(text[2 * j]).unwrap() + hex_value(
                        text[2 * j + 1],
                    ).unwrap()) as u8,
            ),
        )
    }
}

/// The six-bit value of a symbol of the standard alphabet.
pub open spec fn base64_value(symbol: char) -> Option<int> {
    let code: int = symbol as int;
    if 'A' as int <= code <= 'Z' as int {
        Some(code - 'A' as int)
    } else if 'a' as int <= code <= 'z' as int {
        Some(code - 'a' as int + 26)
    } else if '0' as int <= code <= '9' as int {
        Some(code - '0' as int + 52)
    } else if symbol == '+' {
        Some(62)
    } else if symbol == '/' {
        Some(63)
    } else {
        None
    }
}

/// How many `=` a padded text ends in, counting two at most.
pub open spec fn base64_padding(text: Seq<char>) -> int {
    if text.len() >= 2 && text[text.len() - 1] == '=' && text[text.len() - 2] == '=' {
        2
    } else if text.len() >= 1 && text[text.len() - 1] == '=' {
        1
    } else {
        0
    }
}

/// The value of symbol `k` of `text`, or zero where there is none.
pub open spec fn value_or_zero(text: Seq<char>, k: int) -> int {
    if 0 <= k < text.len() && base64_value(text[k]) is Some {
        base64_value(text[k]).unwrap()
    } else {
        0
    }
}

/// Byte `j` of the bit string that the symbols of `text` spell out.
pub open spec fn octet(text: Seq<char>, j: int) -> int {
    let first: int = 4 * (j / 3);
    if j % 3 == 0 {
        value_or_zero(text, first) * 4 + value_or_zero(text, first + 1) / 16
    } else if j % 3 == 1 {
        (value_or_zero(text, first + 1) % 16) * 16 + value_or_zero(text, first + 2) / 4
    } else {
        (value_or_zero(text, first + 2) % 4) * 64 + value_or_zero(text, first + 3)
    }
}

/// Whether `text` is canonical padded base64: whole groups of four, symbols
/// of the standard alphabet up to the padding, and no stray bits in the last
/// symbol before it.
pub open spec fn base64_well_formed(text: Seq<char>) -> bool {
    let padding: int = base64_padding(text);
    let symbols: int = text.len() - padding;
    &&& text.len() % 4 == 0
    &&& forall|k: int| 0 <= k < symbols ==> base64_value(#[trigger] text[k]) is Some
    &&& padding == 2 ==> value_or_zero(text, symbols - 1) % 16 == 0
    &&& padding == 1 ==> value_or_zero(text, symbols - 1) % 4 == 0
}

/// The bytes that a padded base64 text stands for: three for every four
/// symbols, less one for each `=` at its end. A text that is not well formed
/// stands for nothing.
pub open spec fn base64_decode(text: Seq<char>) -> Option<Seq<u8>> {
    if base64_well_formed(text) {
        Some(
            Seq::new(
                (3 * (text.len() / 4) - base64_padding(text)) as nat,
                |j: int| octet(text, j) as u8,
            ),
        )
    } else {
        None
    }
}

/// `hex::encode`: every byte as two lower-case hexadecimal digits. The text
/// is collected into a `String`, which cannot hold more than `isize::MAX`
/// bytes.
#[verifier::external_body]
pub(crate) fn hex_encode(bytes: &[u8]) -> (text: String)
    requires
        2 * bytes@.len() <= isize::MAX,
    ensures
        text@ == hex_lower(bytes@),
{
    hex::encode(bytes)
}

/// `Engine::encode` of `base64::engine::general_purpose::STANDARD`: the
/// standard alphabet with padding. The crate panics when it cannot allocate
/// a buffer of the text's length, which the precondition rules out.
#[verifier::external_body]
pub(crate) fn base64_encode(bytes: &[u8]) -> (text: String)
    requires
        base64_len(bytes@.len()) <= isize::MAX,
    ensures
        text@ == base64_standard(bytes@),
{
    base64::engine::general_purpose::STANDARD.encode(bytes)
}

/// Every hexadecimal digit has the value it was written for.
pub proof fn lemma_hex_digit_value(value: int)
    requires
        0 <= value < 16,
    ensures
        hex_value(hex_digit(value)) == Some(value),
{
}

/// Every symbol of the alphabet has the value it was written for, and none
/// of them is the padding character.
pub proof fn lemma_base64_symbol_value(value: int)
    requires
        0 <= value < 64,
    ensures
        base64_value(base64_symbol(value)) == Some(value),
        base64_symbol(value) != '=',
{
}

/// Groups of six bits are six bits wide.
pub proof fn lemma_sextet_range(bytes: Seq<u8>, k: int)
    requires
        0 <= k,
    ensures
        0 <= sextet(bytes, k) < 64,
{
}

/// Hexadecimal text decodes to the bytes it was made from.
pub proof fn lemma_hex_round_trip(bytes: Seq<u8>)
    ensures
        hex_decode(hex_lower(bytes)) == Some(bytes),
{
    let text = hex_lower(bytes);
    assert forall|i: int| 0 <= i < text.len() implies hex_value(#[trigger] text[i]) is Some by {
        let byte: int = bytes[i / 2] as int;
        lemma_hex_digit_value(byte / 16);
        lemma_hex_digit_value(byte % 16);
    }
    let decoded = hex_decode(text).unwrap();
    assert forall|j: int| 0 <= j < bytes.len() implies decoded[j] == bytes[j] by {
        let byte: int = bytes[j] as int;
        lemma_hex_digit_value(byte / 16);
        lemma_hex_digit_value(byte % 16);
        assert((2 * j) / 2 == j && (2 * j) % 2 == 0);
        assert((2 * j + 1) / 2 == j && (2 * j + 1) % 2 == 1);
        assert(text[2 * j] == hex_digit(byte / 16));
        assert(text[2 * j + 1] == hex_digit(byte % 16));
    }
    assert(decoded =~= bytes);
}

/// The symbols of an encoded text carry the groups of six bits of its bytes.
proof fn lemma_encoded_values(bytes: Seq<u8>, k: int)
    requires
        0 <= k < (4 * bytes.len() + 2) / 3,
    ensures
        k < base64_standard(bytes).len(),
        base64_standard(bytes)[k] != '=',
        base64_value(base64_standard(bytes)[k]) == Some(sextet(bytes, k)),
        value_or_zero(base64_standard(bytes), k) == sextet(bytes, k),
{
    lemma_sextet_range(bytes, k);
    lemma_base64_symbol_value(sextet(bytes, k));
}

/// Three bytes cut into four groups of six bits and put together again are
/// the same three bytes.
proof fn lemma_regroup(b0: int, b1: int, b2: int)
    requires
        0 <= b0 < 256,
        0 <= b1 < 256,
        0 <= b2 < 256,
    ensures
        (b0 / 4) * 4 + ((b0 % 4) * 16 + b1 / 16) / 16 == b0,
        (((b0 % 4) * 16 + b1 / 16) % 16) * 16 + ((b1 % 16) * 4 + b2 / 64) / 4 == b1,
        (((b1 % 16) * 4 + b2 / 64) % 4) * 64 + b2 % 64 == b2,
{
}

/// The four groups of six bits that the three bytes of group `g` are cut
/// into.
proof fn lemma_sextets_of_group(bytes: Seq<u8>, g: int)
    requires
        0 <= g,
    ensures
        sextet(bytes, 4 * g) == byte_or_zero(bytes, 3 * g) / 4,
        sextet(bytes, 4 * g + 1) == (byte_or_zero(bytes, 3 * g) % 4) * 16 + byte_or_zero(
            bytes,
            3 * g + 1,
        ) / 16,
        sextet(bytes, 4 * g + 2) == (byte_or_zero(bytes, 3 * g + 1) % 16) * 4 + byte_or_zero(
            bytes,
            3 * g + 2,
        ) / 64,
        sextet(bytes, 4 * g + 3) == byte_or_zero(bytes, 3 * g + 2) % 64,
{
    assert((4 * g) / 4 == g && (4 * g) % 4 == 0);
    assert((4 * g + 1) / 4 == g && (4 * g + 1) % 4 == 1);
    assert((4 * g + 2) / 4 == g && (4 * g + 2) % 4 == 2);
    assert((4 * g + 3) / 4 == g && (4 * g + 3) % 4 == 3);
}

/// Decoding the encoded text gives back byte `j`.
proof fn lemma_decoded_octet(bytes: Seq<u8>, j: int)
    requires
        0 <= j < bytes.len(),
    ensures
        octet(base64_standard(bytes), j) == bytes[j] as int,
{
    let g: int = j / 3;
    let b0: int = byte_or_zero(bytes, 3 * g);
    let b1: int = byte_or_zero(bytes, 3 * g + 1);
    let b2: int = byte_or_zero(bytes, 3 * g + 2);
    lemma_sextets_of_group(bytes, g);
    lemma_regroup(b0, b1, b2);
    if j % 3 == 0 {
        lemma_encoded_values(bytes, 4 * g);
        lemma_encoded_values(bytes, 4 * g + 1);
    } else if j % 3 == 1 {
        lemma_encoded_values(bytes, 4 * g + 1);
        lemma_encoded_values(bytes, 4 * g + 2);
    } else {
        lemma_encoded_values(bytes, 4 * g + 2);
        lemma_encoded_values(bytes, 4 * g + 3);
    }
}

/// The encoded text is well formed and ends in as much padding as its
/// length calls for.
proof fn lemma_encoded_shape(bytes: Seq<u8>)
    ensures
        base64_well_formed(base64_standard(bytes)),
        3 * (base64_standard(bytes).len() / 4) - base64_padding(base64_standard(bytes))
            == bytes.len(),
{
    let text = base64_standard(bytes);
    let n: int = bytes.len() as int;
    let g: int = n / 3;
    let symbols: int = (4 * n + 2) / 3;
    let padding: int = text.len() - symbols;
    assert(text.len() == 4 * ((n + 2) / 3));
    assert(n % 3 == 0 ==> symbols == 4 * g && text.len() == 4 * g);
    assert(n % 3 == 1 ==> symbols == 4 * g + 2 && text.len() == 4 * g + 4);
    assert(n % 3 == 2 ==> symbols == 4 * g + 3 && text.len() == 4 * g + 4);
    if symbols > 0 {
        lemma_encoded_values(bytes, symbols - 1);
    }
    if symbols > 1 {
        lemma_encoded_values(bytes, symbols - 2);
    }
    assert(base64_padding(text) == padding);
    assert forall|k: int| 0 <= k < symbols implies base64_value(#[trigger] text[k]) is Some by {
        lemma_encoded_values(bytes, k);
    }
    lemma_sextets_of_group(bytes, g);
}

/// Base64 text decodes to the bytes it was made from.
pub proof fn lemma_base64_round_trip(bytes: Seq<u8>)
    ensures
        base64_decode(base64_standard(bytes)) == Some(bytes),
{
    let text = base64_standard(bytes);
    lemma_encoded_shape(bytes);
    let decoded = base64_decode(text).unwrap();
    assert(decoded.len() == bytes.len());
    assert forall|j: int| 0 <= j < bytes.len() implies decoded[j] == bytes[j] by {
        lemma_decoded_octet(bytes, j);
    }
    assert(decoded =~= bytes);
}

/// The two texts of a digest say the same thing: decoded, each gives back
/// the bytes it was made from, and so both give the same bytes.
pub proof fn lemma_encodings_agree(bytes: Seq<u8>)
    ensures
        hex_decode(hex_lower(bytes)) == Some(bytes),
        base64_decode(base64_standard(bytes)) == Some(bytes),
        hex_decode(hex_lower(bytes)) == base64_decode(base64_standard(bytes)),
{
    lemma_hex_round_trip(bytes);
    lemma_base64_round_trip(bytes);
}

} // verus!
