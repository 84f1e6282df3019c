//! Mathematical model of Z85 (ZeroMQ RFC 32): the alphabet, the value of a
//! group of five characters, and the encoding and decoding of whole buffers.
use vstd::arithmetic::div_mod::*;
use vstd::prelude::*;

verus! {

/// The character that stands for the base-85 digit `d` (`0 <= d < 85`), i.e.
/// position `d` of
/// `0123456789abcdefghijklmnopqrstuvwxyzABCDEFGHIJKLMNOPQRSTUVWXYZ.-:+=^!/*?&<>()[]{}@%$#`.
pub open spec fn z85_char(d: int) -> u8 {
    if d < 10 {
        (48 + d) as u8
    } else if d < 36 {
        (97 + (d - 10)) as u8
    } else if d < 62 {
        (65 + (d - 36)) as u8
    } else {
        match d as u8 {
            62u8 => 46u8,
            63u8 => 45u8,
            64u8 => 58u8,
            65u8 => 43u8,
            66u8 => 61u8,
            67u8 => 94u8,
            68u8 => 33u8,
            69u8 => 47u8,
            70u8 => 42u8,
            71u8 => 63u8,
            72u8 => 38u8,
            73u8 => 60u8,
            74u8 => 62u8,
            75u8 => 40u8,
            76u8 => 41u8,
            77u8 => 91u8,
            78u8 => 93u8,
            79u8 => 123u8,
            80u8 => 125u8,
            81u8 => 64u8,
            82u8 => 37u8,
            83u8 => 36u8,
            _ => 35u8,
        }
    }
}

/// The base-85 digit that the byte `c` stands for, or `None` when `c` is not a
/// character of the Z85 alphabet.
pub open spec fn z85_value(c: u8) -> Option<int> {
    if 48 <= c <= 57 {
        Some(c - 48)
    } else if 97 <= c <= 122 {
        Some(c - 97 + 10)
    } else if 65 <= c <= 90 {
        Some(c - 65 + 36)
    } else {
        match c {
            46u8 => Some(62),
            45u8 => Some(63),
            58u8 => Some(64),
            43u8 => Some(65),
            61u8 => Some(66),
            94u8 => Some(67),
            33u8 => Some(68),
            47u8 => Some(69),
            42u8 => Some(70),
            63u8 => Some(71),
            38u8 => Some(72),
            60u8 => Some(73),
            62u8 => Some(74),
            40u8 => Some(75),
            41u8 => Some(76),
            91u8 => Some(77),
            93u8 => Some(78),
            123u8 => Some(79),
            125u8 => Some(80),
            64u8 => Some(81),
            37u8 => Some(82),
            36u8 => Some(83),
            35u8 => Some(84),
            _ => None,
        }
    }
}

/// Weight of the `i`-th character of a group: `85^(4 - i)`.
pub open spec fn place85(i: int) -> int {
    if i == 0 {
        52200625
    } else if i == 1 {
        614125
    } else if i == 2 {
        7225
    } else if i == 3 {
        85
    } else {
        1
    }
}

/// Weight of the `i`-th byte of a big-endian 32-bit word: `256^(3 - i)`.
pub open spec fn place256(i: int) -> int {
    if i == 0 {
        16777216
    } else if i == 1 {
        65536
    } else if i == 2 {
        256
    } else {
        1
    }
}

/// Big-endian value of the first `j` bytes of the `g`-th four-byte word of `data`.
pub open spec fn word_prefix(data: Seq<u8>, g: int, j: nat) -> int
    decreases j,
{
    if j == 0 {
        0
    } else {
        word_prefix(data, g, (j - 1) as nat) * 256 + data[4 * g + j - 1]
    }
}

/// Big-endian value of the `g`-th four-byte word of `data`.
pub open spec fn word_at(data: Seq<u8>, g: int) -> int {
    word_prefix(data, g, 4)
}

/// Z85 text of `data` (whose length is a multiple of 4): each word becomes
/// the five alphabet characters of its base-85 digits, most significant first.
pub open spec fn z85_encoding(data: Seq<u8>) -> Seq<u8> {
    Seq::new(
        (data.len() / 4 * 5) as nat,
        |k: int| z85_char((word_at(data, k / 5) / place85(k % 5)) % 85),
    )
}

/// Digit of `c`, counting a byte outside the alphabet as zero.
pub open spec fn digit_or_zero(c: u8) -> int {
    match z85_value(c) {
        Some(d) => d,
        None => 0,
    }
}

/// Base-85 value of the first `j` characters of the `g`-th group of `s`.
pub open spec fn group_prefix_value(s: Seq<u8>, g: int, j: nat) -> int
    decreases j,
{
    if j == 0 {
        0
    } else {
        group_prefix_value(s, g, (j - 1) as nat) * 85 + digit_or_zero(s[5 * g + j - 1])
    }
}

/// Base-85 value of the `g`-th group of five characters of `s`.
pub open spec fn group_value(s: Seq<u8>, g: int) -> int {
    group_prefix_value(s, g, 5)
}

/// The `g`-th group of `s` consists of alphabet characters and its value fits
/// in 32 bits.
pub open spec fn group_valid(s: Seq<u8>, g: int) -> bool {
    &&& forall|i: int| 0 <= i < 5 ==> (#[trigger] z85_value(s[5 * g + i])) is Some
    &&& group_value(s, g) <= u32::MAX
}

/// `s` is a Z85 text: a non-empty sequence of valid five-character groups.
pub open spec fn z85_valid(s: Seq<u8>) -> bool {
    &&& s.len() >= 5
    &&& s.len() % 5 == 0
    &&& forall|g: int| 0 <= g < s.len() / 5 ==> #[trigger] group_valid(s, g)
}

/// The bytes that the groups of `s` stand for: each group value written as a
/// big-endian 32-bit word.
pub open spec fn z85_decoding(s: Seq<u8>) -> Seq<u8> {
    Seq::new(
        (s.len() / 5 * 4) as nat,
        |k: int| ((group_value(s, k / 4) / place256(k % 4)) % 256) as u8,
    )
}

/// How many of the first `n` groups of `s` are valid before the first invalid one.
pub open spec fn leading_valid_groups(s: Seq<u8>, n: nat) -> nat
    decreases n,
{
    if n == 0 {
        0
    } else {
        let p = leading_valid_groups(s, (n - 1) as nat);
        if p == n - 1 && group_valid(s, n - 1) {
            n
        } else {
            p
        }
    }
}

// ---------------------------------------------------------------------------
// The alphabet
// ---------------------------------------------------------------------------

/// Every digit has a character, and that character reads back as the digit.
pub proof fn lemma_char_then_value(d: int)
    requires
        0 <= d < 85,
    ensures
        z85_value(z85_char(d)) == Some(d),
{
}

/// Every alphabet character is the character of the digit it reads as.
pub proof fn lemma_value_then_char(c: u8)
    requires
        z85_value(c) is Some,
    ensures
        0 <= z85_value(c).unwrap() < 85,
        z85_char(z85_value(c).unwrap()) == c,
{
}

/// The Z85 alphabet is the one RFC 32 fixes: digit `d` is written as byte `d`
/// of the RFC's alphabet string, and each byte of that string reads back as
/// its position; no other byte reads as a digit.
pub proof fn lemma_alphabet_is_rfc32()
    ensures
        "0123456789abcdefghijklmnopqrstuvwxyzABCDEFGHIJKLMNOPQRSTUVWXYZ.-:+=^!/*?&<>()[]{}@%$#"@.len() == 85,
        forall|d: int|
            0 <= d < 85 ==> #[trigger] z85_char(d) as char
                == "0123456789abcdefghijklmnopqrstuvwxyzABCDEFGHIJKLMNOPQRSTUVWXYZ.-:+=^!/*?&<>()[]{}@%$#"@[d],
        forall|d: int|
            0 <= d < 85 ==> #[trigger] z85_value(
                "0123456789abcdefghijklmnopqrstuvwxyzABCDEFGHIJKLMNOPQRSTUVWXYZ.-:+=^!/*?&<>()[]{}@%$#"@[d] as u8,
            ) == Some(d),
        forall|c: u8|
            #[trigger] z85_value(c) is Some ==> "0123456789abcdefghijklmnopqrstuvwxyzABCDEFGHIJKLMNOPQRSTUVWXYZ.-:+=^!/*?&<>()[]{}@%$#"@[z85_value(
                c,
            ).unwrap()] == c as char,
{
    reveal_strlit("0123456789abcdefghijklmnopqrstuvwxyzABCDEFGHIJKLMNOPQRSTUVWXYZ.-:+=^!/*?&<>()[]{}@%$#");
    let a = "0123456789abcdefghijklmnopqrstuvwxyzABCDEFGHIJKLMNOPQRSTUVWXYZ.-:+=^!/*?&<>()[]{}@%$#"@;
    assert forall|d: int| 0 <= d < 85 implies #[trigger] z85_char(d) as char == a[d]
        && z85_value(a[d] as u8) == Some(d) by {
    }
    assert forall|c: u8| #[trigger] z85_value(c) is Some implies a[z85_value(c).unwrap()]
        == c as char by {
        lemma_value_then_char(c);
        let d = z85_value(c).unwrap();
        assert(z85_char(d) as char == a[d]);
    }
}

/// Each character of the text of `data` is the byte of the RFC 32 alphabet
/// string at the position of the matching base-85 digit of its word.
pub proof fn lemma_encoding_uses_rfc32_alphabet(data: Seq<u8>)
    ensures
        forall|k: int|
            0 <= k < z85_encoding(data).len() ==> #[trigger] z85_encoding(data)[k] as char
                == "0123456789abcdefghijklmnopqrstuvwxyzABCDEFGHIJKLMNOPQRSTUVWXYZ.-:+=^!/*?&<>()[]{}@%$#"@[(word_at(data, k / 5) / place85(k % 5)) % 85],
{
    lemma_alphabet_is_rfc32();
    assert forall|k: int| 0 <= k < z85_encoding(data).len() implies #[trigger] z85_encoding(
        data,
    )[k] as char == "0123456789abcdefghijklmnopqrstuvwxyzABCDEFGHIJKLMNOPQRSTUVWXYZ.-:+=^!/*?&<>()[]{}@%$#"@[(word_at(data, k / 5) / place85(k % 5)) % 85] by {
        lemma_mod_bound(word_at(data, k / 5) / place85(k % 5), 85);
    }
}

// ---------------------------------------------------------------------------
// Arithmetic of groups and words
// ---------------------------------------------------------------------------

proof fn lemma_split_digit(x: int, b: int, hi: int, lo: int)
    requires
        b > 0,
        0 <= lo < b,
        x == hi * b + lo,
    ensures
        x / b == hi,
        x % b == lo,
{
    lemma_fundamental_div_mod_converse(x, b, hi, lo);
}

/// The base-85 digits of a 32-bit value recombine to it.
proof fn lemma_base85_recombine(w: int)
    requires
        0 <= w <= u32::MAX,
    ensures
        ((((w / 52200625) % 85 * 85 + (w / 614125) % 85) * 85 + (w / 7225) % 85) * 85 + (w / 85)
            % 85) * 85 + w % 85 == w,
        w / 52200625 < 85,
{
    let q4 = w / 85;
    let q3 = w / 7225;
    let q2 = w / 614125;
    let q1 = w / 52200625;
    lemma_fundamental_div_mod(w, 85);
    lemma_div_denominator(w, 85, 85);
    lemma_fundamental_div_mod(q4, 85);
    lemma_div_denominator(w, 7225, 85);
    lemma_fundamental_div_mod(q3, 85);
    lemma_div_denominator(w, 614125, 85);
    lemma_fundamental_div_mod(q2, 85);
    lemma_div_is_ordered(w, u32::MAX as int, 52200625);
    lemma_small_mod(q1 as nat, 85);
    assert(q1 % 85 == q1);
    assert(w == q4 * 85 + w % 85);
    assert(q4 == q3 * 85 + q4 % 85);
    assert(q3 == q2 * 85 + q3 % 85);
    assert(q2 == q1 * 85 + q2 % 85);
}

/// The bytes of a 32-bit value recombine to it.
proof fn lemma_base256_recombine(w: int)
    requires
        0 <= w <= u32::MAX,
    ensures
        (((w / 16777216) % 256 * 256 + (w / 65536) % 256) * 256 + (w / 256) % 256) * 256 + w
            % 256 == w,
{
    let q3 = w / 256;
    let q2 = w / 65536;
    let q1 = w / 16777216;
    lemma_fundamental_div_mod(w, 256);
    lemma_div_denominator(w, 256, 256);
    lemma_fundamental_div_mod(q3, 256);
    lemma_div_denominator(w, 65536, 256);
    lemma_fundamental_div_mod(q2, 256);
    lemma_div_is_ordered(w, u32::MAX as int, 16777216);
    lemma_small_mod(q1 as nat, 256);
    assert(w == q3 * 256 + w % 256);
    assert(q3 == q2 * 256 + q3 % 256);
    assert(q2 == q1 * 256 + q2 % 256);
}

/// A number written with five base-85 digits has exactly those digits.
proof fn lemma_base85_digits(d0: int, d1: int, d2: int, d3: int, d4: int)
    requires
        0 <= d0 < 85,
        0 <= d1 < 85,
        0 <= d2 < 85,
        0 <= d3 < 85,
        0 <= d4 < 85,
    ensures
        ({
            let w = (((d0 * 85 + d1) * 85 + d2) * 85 + d3) * 85 + d4;
            &&& (w / 52200625) % 85 == d0
            &&& (w / 614125) % 85 == d1
            &&& (w / 7225) % 85 == d2
            &&& (w / 85) % 85 == d3
            &&& w % 85 == d4
        }),
{
    let q1 = d0;
    let q2 = d0 * 85 + d1;
    let q3 = q2 * 85 + d2;
    let q4 = q3 * 85 + d3;
    let w = q4 * 85 + d4;
    assert(q2 >= 0 && q3 >= 0 && q4 >= 0) by (nonlinear_arith)
        requires
            q2 == d0 * 85 + d1,
            q3 == q2 * 85 + d2,
            q4 == q3 * 85 + d3,
            0 <= d0,
            0 <= d1,
            0 <= d2,
            0 <= d3,
    ;
    lemma_split_digit(w, 85, q4, d4);
    lemma_split_digit(q4, 85, q3, d3);
    lemma_split_digit(q3, 85, q2, d2);
    lemma_split_digit(q2, 85, q1, d1);
    lemma_div_denominator(w, 85, 85);
    lemma_div_denominator(w, 7225, 85);
    lemma_div_denominator(w, 614125, 85);
    lemma_small_mod(d0 as nat, 85);
}

/// A number written with four bytes has exactly those bytes.
proof fn lemma_base256_digits(b0: int, b1: int, b2: int, b3: int)
    requires
        0 <= b0 < 256,
        0 <= b1 < 256,
        0 <= b2 < 256,
        0 <= b3 < 256,
    ensures
        ({
            let w = ((b0 * 256 + b1) * 256 + b2) * 256 + b3;
            &&& (w / 16777216) % 256 == b0
            &&& (w / 65536) % 256 == b1
            &&& (w / 256) % 256 == b2
            &&& w % 256 == b3
        }),
{
    let q2 = b0 * 256 + b1;
    let q3 = q2 * 256 + b2;
    let w = q3 * 256 + b3;
    assert(q2 >= 0 && q3 >= 0) by (nonlinear_arith)
        requires
            q2 == b0 * 256 + b1,
            q3 == q2 * 256 + b2,
            0 <= b0,
            0 <= b1,
            0 <= b2,
    ;
    lemma_split_digit(w, 256, q3, b3);
    lemma_split_digit(q3, 256, q2, b2);
    lemma_split_digit(q2, 256, b0, b1);
    lemma_div_denominator(w, 256, 256);
    lemma_div_denominator(w, 65536, 256);
    lemma_small_mod(b0 as nat, 256);
}

/// A group value grows as characters are added.
pub proof fn lemma_group_prefix_monotone(s: Seq<u8>, g: int, j: nat, k: nat)
    requires
        j <= k,
    ensures
        0 <= group_prefix_value(s, g, j) <= group_prefix_value(s, g, k),
    decreases k,
{
    if k > 0 {
        if j == k {
            lemma_group_prefix_monotone(s, g, (k - 1) as nat, (k - 1) as nat);
        } else {
            lemma_group_prefix_monotone(s, g, j, (k - 1) as nat);
        }
    }
}

/// The value of a word is a 32-bit number.
pub proof fn lemma_word_bound(data: Seq<u8>, g: int, j: nat)
    requires
        j <= 4,
    ensures
        0 <= word_prefix(data, g, j) < place256(4 - j as int) * 256,
    decreases j,
{
    if j > 0 {
        lemma_word_bound(data, g, (j - 1) as nat);
    }
}

pub(crate) proof fn lemma_index_split(k: int, n: int, g: int, i: int)
    requires
        n > 0,
        0 <= i < n,
        k == n * g + i,
    ensures
        k / n == g,
        k % n == i,
{
    vstd::arithmetic::mul::lemma_mul_is_commutative(n, g);
    lemma_fundamental_div_mod_converse(k, n, g, i);
}

// ---------------------------------------------------------------------------
// Laws of the codec
// ---------------------------------------------------------------------------

/// Decoding the Z85 text of a non-empty buffer whose length is a multiple of
/// four gives the buffer back: every group of the text is valid and stands
/// for the word it was made from.
pub proof fn lemma_decode_of_encode(data: Seq<u8>)
    requires
        data.len() > 0,
        data.len() % 4 == 0,
    ensures
        z85_valid(z85_encoding(data)),
        z85_decoding(z85_encoding(data)) == data,
{
    let s = z85_encoding(data);
    let n = data.len() as int / 4;
    lemma_fundamental_div_mod(data.len() as int, 4);
    assert(s.len() == 5 * n);
    lemma_index_split(s.len() as int, 5, n, 0);
    assert forall|g: int| 0 <= g < n implies group_valid(s, g) && group_value(s, g) == word_at(
        data,
        g,
    ) by {
        lemma_group_of_word(data, g);
    }
    assert forall|g: int| 0 <= g < s.len() / 5 implies #[trigger] group_valid(s, g) by {
        lemma_group_of_word(data, g);
    }
    let d = z85_decoding(s);
    assert(d.len() == data.len()) by {
        lemma_index_split(s.len() as int, 5, n, 0);
    }
    assert forall|k: int| 0 <= k < data.len() implies d[k] == data[k] by {
        let g = k / 4;
        let i = k % 4;
        lemma_fundamental_div_mod(k, 4);
        lemma_group_of_word(data, g);
        lemma_word_bytes(data, g);
    }
    assert(d =~= data);
}

/// The `i`-th character of the `g`-th group of the text of `data` is the
/// character of the `i`-th base-85 digit of the `g`-th word.
pub(crate) proof fn lemma_encoding_char(data: Seq<u8>, g: int, i: int)
    requires
        data.len() % 4 == 0,
        0 <= g < data.len() / 4,
        0 <= i < 5,
    ensures
        5 * g + i < z85_encoding(data).len(),
        z85_encoding(data)[5 * g + i] == z85_char((word_at(data, g) / place85(i)) % 85),
{
    let n = data.len() as int / 4;
    assert(5 * g + i < n * 5) by (nonlinear_arith)
        requires
            0 <= g < n,
            0 <= i < 5,
    ;
    lemma_index_split(5 * g + i, 5, g, i);
}

/// Each group of the text of `data` is valid and has the value of the word
/// it was made from.
proof fn lemma_group_of_word(data: Seq<u8>, g: int)
    requires
        data.len() % 4 == 0,
        0 <= g < data.len() / 4,
    ensures
        group_valid(z85_encoding(data), g),
        group_value(z85_encoding(data), g) == word_at(data, g),
{
    let s = z85_encoding(data);
    let w = word_at(data, g);
    lemma_word_bound(data, g, 4);
    lemma_base85_recombine(w);
    let e0 = (w / 52200625) % 85;
    let e1 = (w / 614125) % 85;
    let e2 = (w / 7225) % 85;
    let e3 = (w / 85) % 85;
    let e4 = w % 85;
    lemma_mod_bound(w / 52200625, 85);
    lemma_mod_bound(w / 614125, 85);
    lemma_mod_bound(w / 7225, 85);
    lemma_mod_bound(w / 85, 85);
    lemma_mod_bound(w, 85);
    lemma_encoding_char(data, g, 0);
    lemma_encoding_char(data, g, 1);
    lemma_encoding_char(data, g, 2);
    lemma_encoding_char(data, g, 3);
    lemma_encoding_char(data, g, 4);
    assert(w / 1 == w);
    lemma_char_then_value(e0);
    lemma_char_then_value(e1);
    lemma_char_then_value(e2);
    lemma_char_then_value(e3);
    lemma_char_then_value(e4);
    assert(z85_value(s[5 * g + 0]) == Some(e0));
    assert(z85_value(s[5 * g + 1]) == Some(e1));
    assert(z85_value(s[5 * g + 2]) == Some(e2));
    assert(z85_value(s[5 * g + 3]) == Some(e3));
    assert(z85_value(s[5 * g + 4]) == Some(e4));
    assert(group_prefix_value(s, g, 0) == 0);
    assert(group_prefix_value(s, g, 1) == e0);
    assert(group_prefix_value(s, g, 2) == e0 * 85 + e1);
    assert(group_prefix_value(s, g, 3) == (e0 * 85 + e1) * 85 + e2);
    assert(group_prefix_value(s, g, 4) == ((e0 * 85 + e1) * 85 + e2) * 85 + e3);
    assert(group_prefix_value(s, g, 5) == (((e0 * 85 + e1) * 85 + e2) * 85 + e3) * 85 + e4);
    assert forall|i: int| 0 <= i < 5 implies (#[trigger] z85_value(s[5 * g + i])) is Some by {
        if i == 0 {
        } else if i == 1 {
        } else if i == 2 {
        } else if i == 3 {
        } else {
        }
    }
}

/// The bytes of a word are the bytes it was made from.
proof fn lemma_word_bytes(data: Seq<u8>, g: int)
    ensures
        ({
            let w = word_at(data, g);
            &&& (w / 16777216) % 256 == data[4 * g]
            &&& (w / 65536) % 256 == data[4 * g + 1]
            &&& (w / 256) % 256 == data[4 * g + 2]
            &&& w % 256 == data[4 * g + 3]
        }),
{
    reveal_with_fuel(word_prefix, 5);
    lemma_base256_digits(
        data[4 * g] as int,
        data[4 * g + 1] as int,
        data[4 * g + 2] as int,
        data[4 * g + 3] as int,
    );
}

/// Encoding the bytes that a Z85 text stands for gives the text back.
pub proof fn lemma_encode_of_decode(s: Seq<u8>)
    requires
        z85_valid(s),
    ensures
        z85_decoding(s).len() % 4 == 0,
        z85_encoding(z85_decoding(s)) == s,
{
    let n = s.len() as int / 5;
    let d = z85_decoding(s);
    lemma_fundamental_div_mod(s.len() as int, 5);
    assert(d.len() == 4 * n);
    lemma_index_split(d.len() as int, 4, n, 0);
    let e = z85_encoding(d);
    assert(e.len() == s.len());
    assert forall|k: int| 0 <= k < s.len() implies e[k] == s[k] by {
        let g = k / 5;
        let i = k % 5;
        lemma_fundamental_div_mod(k, 5);
        lemma_mod_bound(k, 5);
        assert(0 <= g < n) by {
            lemma_div_is_ordered(k, s.len() as int, 5);
            lemma_div_is_ordered(0, k, 5);
            lemma_index_split(s.len() as int, 5, n, 0);
        }
        lemma_word_of_group(s, g);
        lemma_group_digits(s, g);
    }
    assert(e =~= s);
}

/// The `i`-th byte decoded from the `g`-th group of `s`.
pub(crate) proof fn lemma_decoding_byte(s: Seq<u8>, g: int, i: int)
    requires
        s.len() % 5 == 0,
        0 <= g < s.len() / 5,
        0 <= i < 4,
    ensures
        4 * g + i < z85_decoding(s).len(),
        z85_decoding(s)[4 * g + i] == ((group_value(s, g) / place256(i)) % 256) as u8,
{
    let n = s.len() as int / 5;
    assert(4 * g + i < n * 4) by (nonlinear_arith)
        requires
            0 <= g < n,
            0 <= i < 4,
    ;
    lemma_index_split(4 * g + i, 4, g, i);
}

/// The word decoded from a valid group has the group's value.
proof fn lemma_word_of_group(s: Seq<u8>, g: int)
    requires
        z85_valid(s),
        0 <= g < s.len() / 5,
    ensures
        word_at(z85_decoding(s), g) == group_value(s, g),
{
    let d = z85_decoding(s);
    let v = group_value(s, g);
    assert(group_valid(s, g));
    lemma_group_prefix_monotone(s, g, 0, 5);
    lemma_base256_recombine(v);
    lemma_decoding_byte(s, g, 0);
    lemma_decoding_byte(s, g, 1);
    lemma_decoding_byte(s, g, 2);
    lemma_decoding_byte(s, g, 3);
    let b0 = (v / 16777216) % 256;
    let b1 = (v / 65536) % 256;
    let b2 = (v / 256) % 256;
    let b3 = v % 256;
    lemma_mod_bound(v / 16777216, 256);
    lemma_mod_bound(v / 65536, 256);
    lemma_mod_bound(v / 256, 256);
    lemma_mod_bound(v, 256);
    assert(v / 1 == v);
    assert(d[4 * g + 0] == b0);
    assert(d[4 * g + 1] == b1);
    assert(d[4 * g + 2] == b2);
    assert(d[4 * g + 3] == b3);
    assert(word_prefix(d, g, 0) == 0);
    assert(word_prefix(d, g, 1) == b0);
    assert(word_prefix(d, g, 2) == b0 * 256 + b1);
    assert(word_prefix(d, g, 3) == (b0 * 256 + b1) * 256 + b2);
    assert(word_prefix(d, g, 4) == ((b0 * 256 + b1) * 256 + b2) * 256 + b3);
}

/// The characters of a valid group are the characters of its value's digits.
proof fn lemma_group_digits(s: Seq<u8>, g: int)
    requires
        z85_valid(s),
        0 <= g < s.len() / 5,
    ensures
        forall|i: int|
            0 <= i < 5 ==> #[trigger] s[5 * g + i] == z85_char(
                (group_value(s, g) / place85(i)) % 85,
            ),
{
    assert(group_valid(s, g));
    let d0 = z85_value(s[5 * g + 0]).unwrap();
    let d1 = z85_value(s[5 * g + 1]).unwrap();
    let d2 = z85_value(s[5 * g + 2]).unwrap();
    let d3 = z85_value(s[5 * g + 3]).unwrap();
    let d4 = z85_value(s[5 * g + 4]).unwrap();
    lemma_value_then_char(s[5 * g + 0]);
    lemma_value_then_char(s[5 * g + 1]);
    lemma_value_then_char(s[5 * g + 2]);
    lemma_value_then_char(s[5 * g + 3]);
    lemma_value_then_char(s[5 * g + 4]);
    reveal_with_fuel(group_prefix_value, 6);
    assert(group_value(s, g) == (((d0 * 85 + d1) * 85 + d2) * 85 + d3) * 85 + d4);
    lemma_base85_digits(d0, d1, d2, d3, d4);
    assert(s[5 * g + 0] == z85_char((group_value(s, g) / place85(0)) % 85));
    assert(s[5 * g + 1] == z85_char((group_value(s, g) / place85(1)) % 85));
    assert(s[5 * g + 2] == z85_char((group_value(s, g) / place85(2)) % 85));
    assert(s[5 * g + 3] == z85_char((group_value(s, g) / place85(3)) % 85));
    assert(s[5 * g + 4] == z85_char((group_value(s, g) / place85(4)) % 85));
}

/// The text of `n` bytes (`n` a positive multiple of four) has a length that
/// decoding accepts, and decoding it gives `n` bytes again.
pub proof fn lemma_lengths_inverse(n: int)
    requires
        n > 0,
        n % 4 == 0,
    ensures
        n / 4 * 5 >= 5,
        (n / 4 * 5) % 5 == 0,
        (n / 4 * 5) / 5 * 4 == n,
{
    lemma_fundamental_div_mod(n, 4);
    lemma_index_split(n / 4 * 5, 5, n / 4, 0);
}

/// When the first `g` groups are valid and the `g`-th is not, exactly `g`
/// groups lead; when all `n` are valid, all `n` lead.
pub proof fn lemma_leading_valid_groups(s: Seq<u8>, n: nat, g: nat)
    requires
        g <= n,
        forall|h: int| 0 <= h < g ==> #[trigger] group_valid(s, h),
        g < n ==> !group_valid(s, g as int),
    ensures
        leading_valid_groups(s, n) == g,
    decreases n,
{
    if n > 0 {
        if g == n {
            lemma_leading_valid_groups(s, (n - 1) as nat, (n - 1) as nat);
        } else {
            lemma_leading_valid_groups(s, (n - 1) as nat, g);
        }
    }
}

} // verus!
