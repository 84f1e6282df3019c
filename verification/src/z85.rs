//! Z85 encoding and decoding (ZeroMQ RFC 32), as used by `zmq_z85_encode`
//! and `zmq_z85_decode`.
use crate::z85_spec::{
    group_prefix_value, group_valid, group_value, leading_valid_groups, lemma_decoding_byte,
    lemma_encoding_char, lemma_group_prefix_monotone, lemma_index_split, lemma_leading_valid_groups, lemma_word_bound,
    place256, place85, word_at, word_prefix, z85_char, z85_decoding, z85_encoding, z85_valid,
    z85_value,
};
use vstd::prelude::*;

verus! {

/// `85^4`, the weight of the first character of a group.
const FIRST_CHAR_WEIGHT: u32 = 52200625;

/// `256^3`, the weight of the first byte of a word.
const FIRST_BYTE_WEIGHT: u32 = 16777216;

/// Length of the Z85 text of `size` bytes, when `size` is a multiple of 4.
pub fn encoded_len(size: usize) -> (r: Option<usize>)
    requires
        size % 4 == 0 ==> size / 4 * 5 <= usize::MAX,
    ensures
        r is Some <==> size % 4 == 0,
        r is Some ==> r.unwrap() == size / 4 * 5,
{
    if size % 4 == 0 {
        Some(size / 4 * 5)
    } else {
        None
    }
}

/// Number of bytes a Z85 text of this length decodes to, when the length is
/// a positive multiple of 5.
pub fn decoded_len(encoded: &[u8]) -> (r: Option<usize>)
    ensures
        r is Some <==> (encoded@.len() >= 5 && encoded@.len() % 5 == 0),
        r is Some ==> r.unwrap() == encoded@.len() / 5 * 4,
{
    if encoded.len() >= 5 && encoded.len() % 5 == 0 {
        Some(encoded.len() / 5 * 4)
    } else {
        None
    }
}

/// The alphabet character of the digit `d`.
fn encoder_char(d: u32) -> (c: u8)
    requires
        d < 85,
    ensures
        c == z85_char(d as int),
{
    if d < 10 {
        (48 + d) as u8
    } else if d < 36 {
        (97 + (d - 10)) as u8
    } else if d < 62 {
        (65 + (d - 36)) as u8
    } else {
        match d {
            62 => 46,
            63 => 45,
            64 => 58,
            65 => 43,
            66 => 61,
            67 => 94,
            68 => 33,
            69 => 47,
            70 => 42,
            71 => 63,
            72 => 38,
            73 => 60,
            74 => 62,
            75 => 40,
            76 => 41,
            77 => 91,
            78 => 93,
            79 => 123,
            80 => 125,
            81 => 64,
            82 => 37,
            83 => 36,
            _ => 35,
        }
    }
}

/// Entry `index` of the decoding table, which covers the bytes 32 to 127:
/// the digit of byte `index + 32`, or `0xFF` where that byte is not in the
/// alphabet.
fn decoder_entry(index: u8) -> (summand: u32)
    requires
        index < 96,
    ensures
        summand == (match z85_value((index + 32) as u8) {
            Some(d) => d,
            None => 0xFF,
        }),
{
    let c: u8 = index + 32;
    if 48 <= c && c <= 57 {
        (c - 48) as u32
    } else if 97 <= c && c <= 122 {
        (c - 97 + 10) as u32
    } else if 65 <= c && c <= 90 {
        (c - 65 + 36) as u32
    } else {
        match c {
            46 => 62,
            45 => 63,
            58 => 64,
            43 => 65,
            61 => 66,
            94 => 67,
            33 => 68,
            47 => 69,
            42 => 70,
            63 => 71,
            38 => 72,
            60 => 73,
            62 => 74,
            40 => 75,
            41 => 76,
            91 => 77,
            93 => 78,
            123 => 79,
            125 => 80,
            64 => 81,
            37 => 82,
            36 => 83,
            35 => 84,
            _ => 0xFF,
        }
    }
}

/// Writes the Z85 text of `data` followed by a NUL byte to the front of
/// `dest`. Refuses, leaving `dest` untouched, when the length of `data` is
/// not a multiple of 4 or `dest` has no room for the text and the NUL.
pub fn encode(data: &[u8], dest: &mut [u8]) -> (ok: bool)
    ensures
        ok == (data@.len() % 4 == 0 && old(dest)@.len() > data@.len() / 4 * 5),
        ok ==> final(dest)@ == z85_encoding(data@) + seq![0u8] + old(dest)@.skip(
            data@.len() as int / 4 * 5 + 1,
        ),
        !ok ==> final(dest)@ == old(dest)@,
{
    if data.len() % 4 == 0 && data.len() / 4 > (usize::MAX - 1) / 5 {
        // The text and its terminator would be longer than any slice.
        proof {
            let q = data@.len() as int / 4;
            let m = (usize::MAX as int - 1) / 5;
            assert(q * 5 >= usize::MAX) by (nonlinear_arith)
                requires
                    q >= m + 1,
                    m == (usize::MAX as int - 1) / 5,
            ;
            assert(vstd::slice::spec_slice_len(dest) == old(dest)@.len());
        }
        return false;
    }
    let output_len = match encoded_len(data.len()) {
        Some(n) => n,
        None => return false,
    };
    if dest.len() < output_len + 1 {
        return false;
    }
    let ghost text = z85_encoding(data@);
    let ghost before = dest@;
    let groups = data.len() / 4;
    proof {
        vstd::arithmetic::div_mod::lemma_fundamental_div_mod(data.len() as int, 4);
    }
    let mut char_nbr: usize = 0;
    let mut g: usize = 0;
    while g < groups
        invariant
            groups == data@.len() / 4,
            data@.len() == 4 * groups,
            output_len == 5 * groups,
            text == z85_encoding(data@),
            g <= groups,
            char_nbr == 5 * g,
            dest@.len() == before.len(),
            before.len() > output_len,
            forall|k: int| 0 <= k < char_nbr ==> dest@[k] == text[k],
            forall|k: int| char_nbr <= k < before.len() ==> dest@[k] == before[k],
        decreases groups - g,
    {
        let mut value: u32 = 0;
        let mut j: usize = 0;
        while j < 4
            invariant
                data@.len() == 4 * groups,
                4 * groups <= usize::MAX,
                g < groups,
                j <= 4,
                value == word_prefix(data@, g as int, j as nat),
            decreases 4 - j,
        {
            proof {
                lemma_word_bound(data@, g as int, (j + 1) as nat);
            }
            value = value * 256 + data[4 * g + j] as u32;
            j += 1;
        }
        let mut divisor: u32 = FIRST_CHAR_WEIGHT;
        let ghost mut i: int = 0;
        while divisor != 0
            invariant
                groups == data@.len() / 4,
                data@.len() == 4 * groups,
                text == z85_encoding(data@),
                g < groups,
                0 <= i <= 5,
                divisor == (if i < 5 {
                    place85(i)
                } else {
                    0
                }),
                char_nbr == 5 * g + i,
                value == word_at(data@, g as int),
                dest@.len() == before.len(),
                before.len() > 5 * groups,
                forall|k: int| 0 <= k < char_nbr ==> dest@[k] == text[k],
                forall|k: int| char_nbr <= k < before.len() ==> dest@[k] == before[k],
            decreases divisor,
        {
            proof {
                lemma_encoding_char(data@, g as int, i);
            }
            dest[char_nbr] = encoder_char(value / divisor % 85);
            char_nbr += 1;
            divisor /= 85;
            proof {
                i = i + 1;
            }
        }
        g += 1;
    }
    dest[char_nbr] = 0;
    proof {
        assert(dest@ =~= text + seq![0u8] + before.skip(output_len + 1));
    }
    true
}

/// Decodes the Z85 text `encoded` into the front of `dest`. Succeeds when
/// `encoded` is a valid Z85 text (a positive multiple of five alphabet
/// characters, each group worth at most `u32::MAX`) and `dest` has room for
/// the decoded bytes. Groups are decoded one after the other, so on failure
/// the words of the groups before the first invalid one have been written.
pub fn decode(encoded: &[u8], dest: &mut [u8]) -> (ok: bool)
    ensures
        ok == (z85_valid(encoded@) && old(dest)@.len() >= encoded@.len() / 5 * 4),
        ok ==> final(dest)@ == z85_decoding(encoded@) + old(dest)@.skip(
            encoded@.len() as int / 5 * 4,
        ),
        ({
            let n = encoded@.len();
            let written = leading_valid_groups(encoded@, n / 5) as int * 4;
            if n >= 5 && n % 5 == 0 && old(dest)@.len() >= n / 5 * 4 {
                final(dest)@ == z85_decoding(encoded@).take(written) + old(dest)@.skip(written)
            } else {
                final(dest)@ == old(dest)@
            }
        }),
{
    let output_len = match decoded_len(encoded) {
        Some(n) => n,
        None => return false,
    };
    if dest.len() < output_len {
        return false;
    }
    let ghost s = encoded@;
    let ghost text = z85_decoding(encoded@);
    let ghost before = dest@;
    let ghost groups: int = s.len() as int / 5;
    proof {
        vstd::arithmetic::div_mod::lemma_fundamental_div_mod(s.len() as int, 5);
    }
    let mut byte_nbr: usize = 0;
    let mut value: u32 = 0;
    let mut char_nbr: usize = 0;
    let ghost mut g: int = 0;
    let ghost mut j: int = 0;
    while char_nbr < encoded.len()
        invariant
            s == encoded@,
            text == z85_decoding(s),
            before == old(dest)@,
            s.len() == 5 * groups,
            groups >= 1,
            groups == s.len() / 5,
            output_len == 4 * groups,
            dest@.len() == before.len(),
            before.len() >= output_len,
            char_nbr == 5 * g + j,
            0 <= j < 5,
            0 <= g,
            char_nbr <= s.len(),
            forall|h: int| 0 <= h < g ==> #[trigger] group_valid(s, h),
            forall|i: int| 0 <= i < j ==> (#[trigger] z85_value(s[5 * g + i])) is Some,
            value == group_prefix_value(s, g, j as nat),
            byte_nbr == 4 * g,
            forall|k: int| 0 <= k < byte_nbr ==> dest@[k] == text[k],
            forall|k: int| byte_nbr <= k < before.len() ==> dest@[k] == before[k],
        decreases s.len() - char_nbr,
    {
        proof {
            lemma_group_prefix_monotone(s, g, (j + 1) as nat, 5);
        }
        if u32::MAX / 85 < value {
            proof {
                lemma_group_prefix_monotone(s, g, 0, j as nat);
                reject_group(s, g, groups, before, dest@, text);
            }
            return false;
        }
        value *= 85;
        let byte = encoded[char_nbr];
        let index = byte.wrapping_sub(32);
        if index >= 96 {
            proof {
                assert(z85_value(s[5 * g + j]) is None);
                reject_group(s, g, groups, before, dest@, text);
            }
            return false;
        }
        let summand = decoder_entry(index);
        if summand == 0xFF || summand > u32::MAX - value {
            proof {
                lemma_group_prefix_monotone(s, g, 0, j as nat);
                if summand == 0xFF {
                    assert(z85_value(s[5 * g + j]) is None);
                }
                reject_group(s, g, groups, before, dest@, text);
            }
            return false;
        }
        value += summand;
        proof {
            assert(z85_value(s[5 * g + j]) is Some);
            assert(value == group_prefix_value(s, g, (j + 1) as nat));
            if j < 4 {
                lemma_index_split(char_nbr as int + 1, 5, g, j + 1);
            } else {
                lemma_index_split(char_nbr as int + 1, 5, g + 1, 0);
            }
        }
        if (char_nbr + 1) % 5 == 0 {
            proof {
                assert(group_valid(s, g));
            }
            let mut divisor: u32 = FIRST_BYTE_WEIGHT;
            let ghost mut i: int = 0;
            while divisor != 0
                invariant
                    s == encoded@,
                    text == z85_decoding(s),
                    s.len() == 5 * groups,
                    groups == s.len() / 5,
                    0 <= g < groups,
                    0 <= i <= 4,
                    divisor == (if i < 4 {
                        place256(i)
                    } else {
                        0
                    }),
                    value == group_value(s, g),
                    byte_nbr == 4 * g + i,
                    dest@.len() == before.len(),
                    before.len() >= 4 * groups,
                    forall|k: int| 0 <= k < byte_nbr ==> dest@[k] == text[k],
                    forall|k: int| byte_nbr <= k < before.len() ==> dest@[k] == before[k],
                decreases divisor,
            {
                proof {
                    lemma_decoding_byte(s, g, i);
                }
                dest[byte_nbr] = (value / divisor % 256) as u8;
                byte_nbr += 1;
                divisor /= 256;
                proof {
                    i = i + 1;
                }
            }
            value = 0;
            proof {
                g = g + 1;
                j = 0;
            }
        } else {
            proof {
                j = j + 1;
            }
        }
        char_nbr += 1;
    }
    proof {
        assert(g == groups && j == 0);
        lemma_leading_valid_groups(s, s.len() / 5, s.len() / 5);
        assert(dest@ =~= text + before.skip(output_len as int));
        assert(text.take(output_len as int) =~= text);
    }
    byte_nbr == output_len
}

/// Bookkeeping for a refusal in the `g`-th group: the groups before it are
/// the leading valid ones, and `dest` holds their words.
proof fn reject_group(
    s: Seq<u8>,
    g: int,
    groups: int,
    before: Seq<u8>,
    dest: Seq<u8>,
    text: Seq<u8>,
)
    requires
        0 <= g < groups,
        groups == s.len() / 5,
        s.len() == 5 * groups,
        text == z85_decoding(s),
        !group_valid(s, g),
        forall|h: int| 0 <= h < g ==> #[trigger] group_valid(s, h),
        dest.len() == before.len(),
        before.len() >= 4 * groups,
        forall|k: int| 0 <= k < 4 * g ==> dest[k] == text[k],
        forall|k: int| 4 * g <= k < before.len() ==> dest[k] == before[k],
    ensures
        !z85_valid(s),
        leading_valid_groups(s, s.len() / 5) == g,
        dest == text.take(4 * g) + before.skip(4 * g),
{
    lemma_leading_valid_groups(s, s.len() / 5, g as nat);
    assert(dest =~= text.take(4 * g) + before.skip(4 * g));
}

} // verus!
