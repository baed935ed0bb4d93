//! Standard base64 encoding (alphabet `A-Z a-z 0-9 + /`, `=` padding).

use vstd::prelude::*;
use crate::text::string_push;

verus! {

/// The character of the base64 alphabet that stands for the 6-bit value `v`.
pub open spec fn b64_symbol(v: u8) -> char {
    if v < 26 {
        ((65 + v) as u8) as char
    } else if v < 52 {
        ((97 + (v - 26)) as u8) as char
    } else if v < 62 {
        ((48 + (v - 52)) as u8) as char
    } else if v == 62 {
        '+'
    } else {
        '/'
    }
}

/// Executable lookup of `b64_symbol`.
pub fn symbol(v: u8) -> (c: char)
    requires
        v < 64,
    ensures
        c == b64_symbol(v),
{
    if v < 26 {
        (65u8 + v) as char
    } else if v < 52 {
        (97u8 + (v - 26)) as char
    } else if v < 62 {
        (48u8 + (v - 52)) as char
    } else if v == 62 {
        '+'
    } else {
        '/'
    }
}

/// The four characters that encode a group of `n` bytes (`1 <= n <= 3`); the bytes
/// past `n` are given as 0 and the missing sextets are written as `=`.
pub open spec fn encode_group(b0: u8, b1: u8, b2: u8, n: int) -> Seq<char> {
    seq![
        b64_symbol(b0 >> 2u8),
        b64_symbol(((b0 & 3u8) << 4u8) | (b1 >> 4u8)),
        if n > 1 {
            b64_symbol(((b1 & 15u8) << 2u8) | (b2 >> 6u8))
        } else {
            '='
        },
        if n > 2 {
            b64_symbol(b2 & 63u8)
        } else {
            '='
        },
    ]
}

/// Base64 text of `data`: one group of four characters for every three bytes,
/// the last group padded with `=`.
pub open spec fn spec_base64_encode(data: Seq<u8>) -> Seq<char>
    decreases data.len(),
{
    if data.len() == 0 {
        Seq::empty()
    } else if data.len() == 1 {
        encode_group(data[0], 0, 0, 1)
    } else if data.len() == 2 {
        encode_group(data[0], data[1], 0, 2)
    } else {
        encode_group(data[0], data[1], data[2], 3) + spec_base64_encode(data.skip(3))
    }
}

/// The four sextets of a group of three bytes are below 64.
pub proof fn lemma_sextets(b0: u8, b1: u8, b2: u8)
    ensures
        b0 >> 2u8 < 64,
        ((b0 & 3u8) << 4u8) | (b1 >> 4u8) < 64,
        ((b1 & 15u8) << 2u8) | (b2 >> 6u8) < 64,
        b2 & 63u8 < 64,
{
    assert(b0 >> 2u8 < 64) by (bit_vector);
    assert(((b0 & 3u8) << 4u8) | (b1 >> 4u8) < 64) by (bit_vector);
    assert(((b1 & 15u8) << 2u8) | (b2 >> 6u8) < 64) by (bit_vector);
    assert(b2 & 63u8 < 64) by (bit_vector);
}

/// Encodes `data` as standard, padded base64.
pub fn encode(data: &[u8]) -> (result: String)
    ensures
        result@ == spec_base64_encode(data@),
{
    let mut result = String::new();
    let n = data.len();
    let mut i: usize = 0;
    assert(data@.skip(0) =~= data@);
    while i < n
        invariant
            i <= n,
            n == data@.len(),
            spec_base64_encode(data@) == result@ + spec_base64_encode(data@.skip(i as int)),
        decreases n - i,
    {
        let rest = n - i;
        let b0 = data[i];
        let b1: u8 = if rest > 1 { data[i + 1] } else { 0 };
        let b2: u8 = if rest > 2 { data[i + 2] } else { 0 };
        proof {
            lemma_sextets(b0, b1, b2);
        }
        let ghost before = result@;
        let ghost tail = data@.skip(i as int);
        string_push(&mut result, symbol(b0 >> 2));
        string_push(&mut result, symbol(((b0 & 3) << 4) | (b1 >> 4)));
        if rest > 1 {
            string_push(&mut result, symbol(((b1 & 15) << 2) | (b2 >> 6)));
        } else {
            string_push(&mut result, '=');
        }
        if rest > 2 {
            string_push(&mut result, symbol(b2 & 63));
        } else {
            string_push(&mut result, '=');
        }
        let m: usize = if rest > 3 { 3 } else { rest };
        proof {
            let g = if rest == 1 {
                encode_group(b0, 0, 0, 1)
            } else if rest == 2 {
                encode_group(b0, b1, 0, 2)
            } else {
                encode_group(b0, b1, b2, 3)
            };
            assert(result@ =~= before + g);
            assert(tail[0] == b0);
            if rest > 1 {
                assert(tail[1] == b1);
            }
            if rest > 2 {
                assert(tail[2] == b2);
            }
            if rest > 3 {
                assert(tail.skip(3) =~= data@.skip(i + 3));
                assert(spec_base64_encode(tail) == g + spec_base64_encode(tail.skip(3)));
                assert(before + (g + spec_base64_encode(tail.skip(3))) =~= result@
                    + spec_base64_encode(tail.skip(3)));
            } else {
                assert(data@.skip(i + m) =~= Seq::<u8>::empty());
                assert(spec_base64_encode(tail) == g);
                assert(result@ + spec_base64_encode(Seq::<u8>::empty()) =~= result@);
            }
        }
        i = i + m;
    }
    assert(data@.skip(n as int) =~= Seq::<u8>::empty());
    assert(result@ + Seq::<char>::empty() =~= result@);
    result
}

/// The standard base64 alphabet: the character for sextet `v` is the `v`-th one.
pub open spec fn base64_alphabet() -> Seq<char> {
    "ABCDEFGHIJKLMNOPQRSTUVWXYZabcdefghijklmnopqrstuvwxyz0123456789+/"@
}

/// Each sextet is written as its character of the standard alphabet.
pub proof fn symbols_follow_alphabet(v: u8)
    requires
        v < 64,
    ensures
        b64_symbol(v) == base64_alphabet()[v as int],
{
    reveal_strlit("ABCDEFGHIJKLMNOPQRSTUVWXYZabcdefghijklmnopqrstuvwxyz0123456789+/");
}

proof fn lemma_sextet_arith(b0: u8, b1: u8, b2: u8)
    ensures
        b0 >> 2u8 == b0 / 4,
        ((b0 & 3u8) << 4u8) | (b1 >> 4u8) == (b0 % 4) * 16 + b1 / 16,
        ((b1 & 15u8) << 2u8) | (b2 >> 6u8) == (b1 % 16) * 4 + b2 / 64,
        b2 & 63u8 == b2 % 64,
{
    assert(b0 >> 2u8 == b0 / 4u8) by (bit_vector);
    assert(((b0 & 3u8) << 4u8) | (b1 >> 4u8) == ((b0 % 4u8) * 16u8 + b1 / 16u8) as u8) by (bit_vector);
    assert(((b1 & 15u8) << 2u8) | (b2 >> 6u8) == ((b1 % 16u8) * 4u8 + b2 / 64u8) as u8) by (bit_vector);
    assert(b2 & 63u8 == b2 % 64u8) by (bit_vector);
}

/// Encoding writes four characters for every started group of three bytes, and
/// each full group `data[3i..3i+3]` as the alphabet characters of its four
/// sextets, high bits first, at `4i..4i+4`.
pub proof fn encode_writes_groups(data: Seq<u8>, i: int)
    requires
        0 <= i,
        3 * i + 3 <= data.len(),
    ensures
        spec_base64_encode(data).len() == 4 * ((data.len() + 2) / 3),
        ({
            let e = spec_base64_encode(data);
            let b0 = data[3 * i] as int;
            let b1 = data[3 * i + 1] as int;
            let b2 = data[3 * i + 2] as int;
            &&& e[4 * i] == base64_alphabet()[b0 / 4]
            &&& e[4 * i + 1] == base64_alphabet()[(b0 % 4) * 16 + b1 / 16]
            &&& e[4 * i + 2] == base64_alphabet()[(b1 % 16) * 4 + b2 / 64]
            &&& e[4 * i + 3] == base64_alphabet()[b2 % 64]
        }),
    decreases i,
{
    let e = spec_base64_encode(data);
    crate::clipboard::base64_text_shape(data);
    let g = encode_group(data[0], data[1], data[2], 3);
    let rest = spec_base64_encode(data.skip(3));
    assert(e == g + rest);
    if i == 0 {
        let b0 = data[0];
        let b1 = data[1];
        let b2 = data[2];
        lemma_sextets(b0, b1, b2);
        lemma_sextet_arith(b0, b1, b2);
        symbols_follow_alphabet(b0 >> 2u8);
        symbols_follow_alphabet(((b0 & 3u8) << 4u8) | (b1 >> 4u8));
        symbols_follow_alphabet(((b1 & 15u8) << 2u8) | (b2 >> 6u8));
        symbols_follow_alphabet(b2 & 63u8);
    } else {
        let tail = data.skip(3);
        encode_writes_groups(tail, i - 1);
        assert(tail[3 * (i - 1)] == data[3 * i]);
        assert(tail[3 * (i - 1) + 1] == data[3 * i + 1]);
        assert(tail[3 * (i - 1) + 2] == data[3 * i + 2]);
        assert(e[4 * i] == rest[4 * (i - 1)]);
        assert(e[4 * i + 1] == rest[4 * (i - 1) + 1]);
        assert(e[4 * i + 2] == rest[4 * (i - 1) + 2]);
        assert(e[4 * i + 3] == rest[4 * (i - 1) + 3]);
    }
}

/// When the length is not a multiple of three, the last group of one or two
/// bytes is written as the alphabet characters of its sextets (the missing low
/// bits taken as zero), padded with `=` to four characters, and ends the text.
pub proof fn encode_pads_last_group(data: Seq<u8>)
    requires
        data.len() % 3 != 0,
    ensures
        ({
            let e = spec_base64_encode(data);
            let i: int = (data.len() / 3) as int;
            let b0 = data[3 * i] as int;
            let b1: int = if data.len() % 3 == 2 {
                data[3 * i + 1] as int
            } else {
                0
            };
            &&& e.len() == 4 * i + 4
            &&& e[4 * i] == base64_alphabet()[b0 / 4]
            &&& e[4 * i + 1] == base64_alphabet()[(b0 % 4) * 16 + b1 / 16]
            &&& e[4 * i + 2] == (if data.len() % 3 == 2 {
                base64_alphabet()[(b1 % 16) * 4]
            } else {
                '='
            })
            &&& e[4 * i + 3] == '='
        }),
    decreases data.len(),
{
    let e = spec_base64_encode(data);
    crate::clipboard::base64_text_shape(data);
    if data.len() <= 2 {
        let b0 = data[0];
        let b1: u8 = if data.len() == 2 {
            data[1]
        } else {
            0
        };
        lemma_sextets(b0, b1, 0);
        lemma_sextet_arith(b0, b1, 0);
        symbols_follow_alphabet(b0 >> 2u8);
        symbols_follow_alphabet(((b0 & 3u8) << 4u8) | (b1 >> 4u8));
        symbols_follow_alphabet(((b1 & 15u8) << 2u8) | (0u8 >> 6u8));
    } else {
        let tail = data.skip(3);
        let g = encode_group(data[0], data[1], data[2], 3);
        let rest = spec_base64_encode(tail);
        assert(e == g + rest);
        encode_pads_last_group(tail);
        let i: int = (data.len() / 3) as int;
        assert(tail.len() / 3 == i - 1);
        assert(tail.len() % 3 == data.len() % 3);
        assert(tail[3 * (i - 1)] == data[3 * i]);
        if data.len() % 3 == 2 {
            assert(tail[3 * (i - 1) + 1] == data[3 * i + 1]);
        }
        assert(e[4 * i] == rest[4 * (i - 1)]);
        assert(e[4 * i + 1] == rest[4 * (i - 1) + 1]);
        assert(e[4 * i + 2] == rest[4 * (i - 1) + 2]);
        assert(e[4 * i + 3] == rest[4 * (i - 1) + 3]);
    }
}

} // verus!
