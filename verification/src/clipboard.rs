//! Base64 payloads bound for the system clipboard: the tolerant decoder and the
//! data-URL handling in front of it.

use vstd::prelude::*;
use vstd::utf8::*;
use crate::text::{concat_str, is_white_space, str_chars, trim, trim_bounds, trim_end, trim_start, utf8_bytes_of};
use crate::commands::base64::{
    b64_symbol, base64_alphabet, encode_group, lemma_sextets, spec_base64_encode, symbols_follow_alphabet,
};
use crate::image_ops::{
    encode_dynamic_rgba_png, load_image_from_memory, spec_dynamic_rgba_png, spec_load_from_memory,
};
use image::DynamicImage;
use vstd::string::StringExecFns;

verus! {

/// The 6-bit value of a byte of the base64 alphabet, `None` for any other byte.
pub open spec fn b64_value(c: u8) -> Option<u8> {
    if 65 <= c <= 90 {
        Some((c - 65) as u8)
    } else if 97 <= c <= 122 {
        Some((c - 71) as u8)
    } else if 48 <= c <= 57 {
        Some((c + 4) as u8)
    } else if c == 43 {
        Some(62u8)
    } else if c == 47 {
        Some(63u8)
    } else {
        None
    }
}

/// Executable lookup of `b64_value`.
pub fn value_of(c: u8) -> (r: Option<u8>)
    ensures
        r == b64_value(c),
{
    if 65 <= c && c <= 90 {
        Some(c - 65)
    } else if 97 <= c && c <= 122 {
        Some(c - 71)
    } else if 48 <= c && c <= 57 {
        Some(c + 4)
    } else if c == 43 {
        Some(62)
    } else if c == 47 {
        Some(63)
    } else {
        None
    }
}

/// Largest width or height of an image put on the clipboard; larger ones are scaled down.
pub const MAX_DIMENSION: u32 = 4096;

/// Largest encoded image accepted for the clipboard: 50 MiB.
pub const MAX_FILE_SIZE: usize = 50 * 1024 * 1024;

/// Whether an image of this size must be scaled down before it goes on the clipboard.
pub fn needs_resize(width: u32, height: u32) -> (b: bool)
    ensures
        b == (width > MAX_DIMENSION || height > MAX_DIMENSION),
{
    width > MAX_DIMENSION || height > MAX_DIMENSION
}

/// Checks the response to an image download before its body is read: a status
/// other than success is refused with the status text, a declared length above
/// `MAX_FILE_SIZE` (read as a `usize`) as too large.
pub fn check_image_download(status_success: bool, status_text: &str, content_length: Option<u64>) -> (r:
    Result<(), String>)
    ensures
        !status_success ==> (r matches Err(e) && e@ == "Failed to download image: HTTP "@
            + status_text@),
        status_success ==> match content_length {
            Some(n) if (n as usize) > MAX_FILE_SIZE => r matches Err(e) && e@ == "Image too large (max 50MB)"@,
            _ => r is Ok,
        },
{
    if !status_success {
        return Err(concat_str("Failed to download image: HTTP ", status_text));
    }
    match content_length {
        Some(n) => {
            if (n as usize) > MAX_FILE_SIZE {
                return Err(String::from_str("Image too large (max 50MB)"));
            }
        },
        None => {},
    }
    Ok(())
}

/// Decodes an encoded image (PNG, ...) for the clipboard; encoded data larger than
/// `MAX_FILE_SIZE` is refused before any decoding.
pub fn decode_clipboard_image(image_data: &[u8]) -> (r: Result<DynamicImage, String>)
    ensures
        image_data.len() > MAX_FILE_SIZE ==> (r matches Err(e) && e@ == "Image too large (max 50MB)"@),
        image_data.len() <= MAX_FILE_SIZE ==> match spec_load_from_memory(image_data@) {
            Ok(img) => r matches Ok(i) && i == img,
            Err(m) => r matches Err(e) && e@ == "Failed to decode image: "@ + m,
        },
{
    if image_data.len() > MAX_FILE_SIZE {
        return Err(String::from_str("Image too large (max 50MB)"));
    }
    match load_image_from_memory(image_data) {
        Ok(img) => Ok(img),
        Err(m) => Err(concat_str("Failed to decode image: ", m.as_str())),
    }
}

/// The clipboard's RGBA8 image (`width` x `height`, read from `bytes`) as a PNG
/// file: refused unless `bytes` holds exactly the `4 * width * height` bytes of
/// that size, else encoded as PNG, with the encoder's message when that fails.
pub fn clipboard_image_png(width: u32, height: u32, bytes: &[u8]) -> (r: Result<Vec<u8>, String>)
    ensures
        bytes.len() != 4 * ((width as int) * (height as int)) ==> (r matches Err(e) && e@
            == "Failed to create image from clipboard data"@),
        bytes.len() == 4 * ((width as int) * (height as int)) ==> match spec_dynamic_rgba_png(
            width,
            height,
            bytes@,
        ) {
            Ok(png) => r matches Ok(v) && v@ == png,
            Err(m) => r matches Err(e) && e@ == "Failed to encode image as PNG: "@ + m,
        },
{
    assert((width as int) * (height as int) <= 0xffff_ffff * 0xffff_ffff) by (nonlinear_arith)
        requires
            width <= 0xffff_ffff,
            height <= 0xffff_ffff,
    ;
    let needed: u128 = 4u128 * ((width as u128) * (height as u128));
    if needed != bytes.len() as u128 {
        return Err(String::from_str("Failed to create image from clipboard data"));
    }
    match encode_dynamic_rgba_png(width, height, bytes) {
        Ok(png) => Ok(png),
        Err(m) => Err(concat_str("Failed to encode image as PNG: ", m.as_str())),
    }
}

/// Number of characters of `s` before its first `','` (all of them when there is none).
pub open spec fn comma_pos(s: Seq<char>) -> int
    decreases s.len(),
{
    if s.len() == 0 || s[0] == ',' {
        0
    } else {
        1 + comma_pos(s.drop_first())
    }
}

/// The base64 part of a data URL: what follows the first `','`, or the whole text
/// when it has no comma.
pub open spec fn data_url_payload(s: Seq<char>) -> Seq<char> {
    if comma_pos(s) < s.len() {
        s.skip(comma_pos(s) + 1)
    } else {
        s
    }
}

proof fn lemma_comma_pos(s: Seq<char>, j: int)
    requires
        0 <= j <= s.len(),
        forall|t: int| 0 <= t < j ==> s[t] != ',',
        j == s.len() || s[j] == ',',
    ensures
        comma_pos(s) == j,
    decreases j,
{
    if j > 0 {
        assert forall|t: int| 0 <= t < j - 1 implies s.drop_first()[t] != ',' by {
            assert(s.drop_first()[t] == s[t + 1]);
        }
        lemma_comma_pos(s.drop_first(), j - 1);
    }
}

/// The bytes of a base64 image, given bare or as a data URL (`data:...;base64,...`).
pub fn base64_image_bytes(base64_data: &str) -> (r: Result<Vec<u8>, String>)
    ensures
        match spec_base64_decode(data_url_payload(base64_data@)) {
            Some(b) => r matches Ok(v) && v@ == b,
            None => r matches Err(e) && e@ == "Failed to decode base64: "@
                + "Invalid base64 character"@,
        },
{
    let chars = str_chars(base64_data);
    let n = chars.len();
    let mut p: usize = 0;
    while p < n && chars[p] != ','
        invariant
            p <= n,
            n == chars@.len(),
            forall|t: int| 0 <= t < p ==> chars@[t] != ',',
        decreases n - p,
    {
        p = p + 1;
    }
    proof {
        lemma_comma_pos(chars@, p as int);
    }
    let payload: Vec<char> = if p < n {
        let mut v: Vec<char> = Vec::new();
        let mut i = p + 1;
        while i < n
            invariant
                p < n,
                p + 1 <= i <= n,
                n == chars@.len(),
                v@ == chars@.subrange(p + 1, i as int),
            decreases n - i,
        {
            v.push(chars[i]);
            assert(v@ =~= chars@.subrange(p + 1, i + 1));
            i = i + 1;
        }
        assert(v@ =~= chars@.skip(p + 1));
        v
    } else {
        chars
    };
    match decode_char_text(&payload) {
        Ok(v) => Ok(v),
        Err(e) => Err(concat_str("Failed to decode base64: ", e)),
    }
}

/// The characters that the decoder drops wherever they stand.
pub open spec fn is_gap(c: char) -> bool {
    c == '\n' || c == '\r' || c == ' '
}

/// `s` with every `'\n'`, `'\r'` and `' '` removed.
pub open spec fn drop_gaps(s: Seq<char>) -> Seq<char>
    decreases s.len(),
{
    if s.len() == 0 {
        s
    } else if is_gap(s.last()) {
        drop_gaps(s.drop_last())
    } else {
        drop_gaps(s.drop_last()).push(s.last())
    }
}

/// The bytes that the decoder reads: the UTF-8 encoding of the trimmed text
/// with its gaps removed.
pub open spec fn base64_input_bytes(s: Seq<char>) -> Seq<u8> {
    encode_utf8(drop_gaps(trim(s)))
}

/// Number of bytes of `chunk` before its first `=` (all of them when there is none).
pub open spec fn pad_pos(chunk: Seq<u8>) -> int
    decreases chunk.len(),
{
    if chunk.len() == 0 || chunk[0] == 61 {
        0
    } else {
        1 + pad_pos(chunk.drop_first())
    }
}

/// The sextet that position `j` of a chunk contributes (0 past the padding).
pub open spec fn sextet(chunk: Seq<u8>, j: int) -> u8 {
    if j < pad_pos(chunk) {
        b64_value(chunk[j]).unwrap()
    } else {
        0
    }
}

/// Decoding of one chunk of at most four bytes: `None` when a byte before the
/// first `=` is outside the alphabet; otherwise one byte for two sextets, two
/// for three and three for four.
pub open spec fn decode_chunk(chunk: Seq<u8>) -> Option<Seq<u8>> {
    let k = pad_pos(chunk);
    if exists|j: int| 0 <= j < k && #[trigger] b64_value(chunk[j]) is None {
        None
    } else {
        let s0 = sextet(chunk, 0);
        let s1 = sextet(chunk, 1);
        let s2 = sextet(chunk, 2);
        let s3 = sextet(chunk, 3);
        Some(
            (if k >= 2 {
                seq![(s0 << 2u8) | (s1 >> 4u8)]
            } else {
                Seq::empty()
            }) + (if k >= 3 {
                seq![(s1 << 4u8) | (s2 >> 2u8)]
            } else {
                Seq::empty()
            }) + (if k >= 4 {
                seq![(s2 << 6u8) | s3]
            } else {
                Seq::empty()
            }),
        )
    }
}

/// Decoding of a byte string chunk by chunk (four bytes each, the last one
/// possibly shorter); `None` as soon as one chunk is rejected.
pub open spec fn decode_bytes(b: Seq<u8>) -> Option<Seq<u8>>
    decreases b.len(),
{
    if b.len() <= 4 {
        if b.len() == 0 {
            Some(Seq::empty())
        } else {
            decode_chunk(b)
        }
    } else {
        match decode_chunk(b.take(4)) {
            None => None,
            Some(o) => match decode_bytes(b.skip(4)) {
                None => None,
                Some(r) => Some(o + r),
            },
        }
    }
}

/// What `base64_decode` gives for the text `s`.
pub open spec fn spec_base64_decode(s: Seq<char>) -> Option<Seq<u8>> {
    decode_bytes(base64_input_bytes(s))
}

proof fn lemma_pad_pos(chunk: Seq<u8>, j: int)
    requires
        0 <= j <= chunk.len(),
        forall|t: int| 0 <= t < j ==> chunk[t] != 61,
        j == chunk.len() || chunk[j] == 61,
    ensures
        pad_pos(chunk) == j,
    decreases j,
{
    if j > 0 {
        assert forall|t: int| 0 <= t < j - 1 implies chunk.drop_first()[t] != 61 by {
            assert(chunk.drop_first()[t] == chunk[t + 1]);
        }
        lemma_pad_pos(chunk.drop_first(), j - 1);
    }
}

proof fn lemma_pad_pos_bound(chunk: Seq<u8>)
    ensures
        0 <= pad_pos(chunk) <= chunk.len(),
        forall|t: int| 0 <= t < pad_pos(chunk) ==> chunk[t] != 61,
    decreases chunk.len(),
{
    if chunk.len() > 0 && chunk[0] != 61 {
        lemma_pad_pos_bound(chunk.drop_first());
        assert forall|t: int| 0 <= t < pad_pos(chunk) implies chunk[t] != 61 by {
            if t > 0 {
                assert(chunk[t] == chunk.drop_first()[t - 1]);
            }
        }
    }
}

/// `s` without gaps, computed over `s[lo..hi]`.
fn drop_gaps_range(s: &Vec<char>, lo: usize, hi: usize) -> (r: Vec<char>)
    requires
        lo <= hi <= s.len(),
    ensures
        r@ == drop_gaps(s@.subrange(lo as int, hi as int)),
{
    let mut r: Vec<char> = Vec::new();
    let mut i = lo;
    while i < hi
        invariant
            lo <= i <= hi <= s.len(),
            r@ == drop_gaps(s@.subrange(lo as int, i as int)),
        decreases hi - i,
    {
        let c = s[i];
        proof {
            let next = s@.subrange(lo as int, i + 1);
            assert(next.drop_last() =~= s@.subrange(lo as int, i as int));
            assert(next.last() == c);
        }
        if !(c == '\n' || c == '\r' || c == ' ') {
            r.push(c);
        }
        i = i + 1;
    }
    r
}

/// Decodes one chunk `b[start..end]` (`1 <= end - start <= 4`), appending its bytes to `out`.
fn decode_chunk_into(b: &Vec<u8>, start: usize, end: usize, out: &mut Vec<u8>) -> (ok: bool)
    requires
        start < end <= b.len(),
        end - start <= 4,
    ensures
        ok == decode_chunk(b@.subrange(start as int, end as int)) is Some,
        ok ==> final(out)@ == old(out)@ + decode_chunk(
            b@.subrange(start as int, end as int),
        ).unwrap(),
{
    let ghost chunk = b@.subrange(start as int, end as int);
    let mut buffer: [u8; 4] = [0u8; 4];
    let mut valid: usize = 0;
    let len = end - start;
    while valid < len
        invariant
            start < end <= b.len(),
            len == end - start,
            len <= 4,
            valid <= len,
            chunk == b@.subrange(start as int, end as int),
            forall|t: int| 0 <= t < valid ==> chunk[t] != 61,
            forall|t: int| 0 <= t < valid ==> b64_value(#[trigger] chunk[t]) == Some(buffer[t]),
            forall|t: int| valid <= t < 4 ==> buffer[t] == 0,
        ensures
            valid <= len,
            valid == len || chunk[valid as int] == 61,
            forall|t: int| 0 <= t < valid ==> chunk[t] != 61,
            forall|t: int| 0 <= t < valid ==> b64_value(#[trigger] chunk[t]) == Some(buffer[t]),
            forall|t: int| valid <= t < 4 ==> buffer[t] == 0,
        decreases len - valid,
    {
        let byte = b[start + valid];
        assert(byte == chunk[valid as int]);
        if byte == 61 {
            break;
        }
        match value_of(byte) {
            Some(v) => {
                buffer[valid] = v;
            },
            None => {
                proof {
                    lemma_pad_pos_bound(chunk);
                    lemma_pad_pos_is_at_least(chunk, valid as int);
                    assert(b64_value(chunk[valid as int]) is None);
                }
                return false;
            },
        }
        valid = valid + 1;
    }
    proof {
        lemma_pad_pos(chunk, valid as int);
        assert(!exists|j: int| 0 <= j < valid && #[trigger] b64_value(chunk[j]) is None);
        assert(sextet(chunk, 0) == buffer[0]);
        assert(sextet(chunk, 1) == buffer[1]);
        assert(sextet(chunk, 2) == buffer[2]);
        assert(sextet(chunk, 3) == buffer[3]);
    }
    let ghost before = out@;
    if valid >= 2 {
        out.push((buffer[0] << 2) | (buffer[1] >> 4));
    }
    if valid >= 3 {
        out.push((buffer[1] << 4) | (buffer[2] >> 2));
    }
    if valid >= 4 {
        out.push((buffer[2] << 6) | buffer[3]);
    }
    assert(out@ =~= before + decode_chunk(chunk).unwrap());
    true
}

proof fn lemma_pad_pos_is_at_least(chunk: Seq<u8>, j: int)
    requires
        0 <= j < chunk.len(),
        forall|t: int| 0 <= t <= j ==> chunk[t] != 61,
    ensures
        pad_pos(chunk) > j,
    decreases j,
{
    if j > 0 {
        assert forall|t: int| 0 <= t <= j - 1 implies chunk.drop_first()[t] != 61 by {
            assert(chunk.drop_first()[t] == chunk[t + 1]);
        }
        lemma_pad_pos_is_at_least(chunk.drop_first(), j - 1);
    } else {
        lemma_pad_pos_bound(chunk.drop_first());
    }
}

/// Tolerant base64 decoder: trims the text, drops `'\n'`, `'\r'` and `' '`, then
/// decodes four bytes at a time, stopping each group at its first `=`.
/// Fails with `"Invalid base64 character"` when a group holds a byte outside the
/// alphabet before its padding.
pub fn base64_decode(input: &str) -> (r: Result<Vec<u8>, &'static str>)
    ensures
        match r {
            Ok(v) => spec_base64_decode(input@) == Some(v@),
            Err(e) => spec_base64_decode(input@) is None && e@ == "Invalid base64 character"@,
        },
{
    let chars = str_chars(input);
    decode_char_text(&chars)
}

/// `base64_decode` over text already split into characters.
fn decode_char_text(chars: &Vec<char>) -> (r: Result<Vec<u8>, &'static str>)
    ensures
        match r {
            Ok(v) => spec_base64_decode(chars@) == Some(v@),
            Err(e) => spec_base64_decode(chars@) is None && e@ == "Invalid base64 character"@,
        },
{
    let (lo, hi) = trim_bounds(chars);
    let kept = drop_gaps_range(chars, lo, hi);
    let n_kept = kept.len();
    let bytes = utf8_bytes_of(&kept, 0, n_kept);
    proof {
        assert(kept@.subrange(0, n_kept as int) =~= kept@);
        assert(bytes@ == base64_input_bytes(chars@));
    }
    let n = bytes.len();
    if n == 0 {
        return Ok(Vec::new());
    }
    let mut output: Vec<u8> = Vec::new();
    let mut i: usize = 0;
    assert(bytes@.skip(0) =~= bytes@);
    while i < n
        invariant
            i <= n,
            n == bytes@.len(),
            bytes@ == base64_input_bytes(chars@),
            decode_bytes(bytes@) == (match decode_bytes(bytes@.skip(i as int)) {
                None => None,
                Some(rest) => Some(output@ + rest),
            }),
        decreases n - i,
    {
        let end: usize = if n - i > 4 { i + 4 } else { n };
        let ghost tail = bytes@.skip(i as int);
        let ghost before = output@;
        let ok = decode_chunk_into(&bytes, i, end, &mut output);
        proof {
            if n - i > 4 {
                assert(tail.take(4) =~= bytes@.subrange(i as int, end as int));
                assert(tail.skip(4) =~= bytes@.skip(end as int));
            } else {
                assert(tail =~= bytes@.subrange(i as int, end as int));
                assert(bytes@.skip(end as int) =~= Seq::<u8>::empty());
                assert(output@ + Seq::<u8>::empty() =~= output@);
            }
        }
        if !ok {
            return Err("Invalid base64 character");
        }
        proof {
            if n - i > 4 {
                let o = decode_chunk(tail.take(4)).unwrap();
                match decode_bytes(bytes@.skip(end as int)) {
                    None => {},
                    Some(rest) => {
                        assert(before + (o + rest) =~= output@ + rest);
                    },
                }
            }
        }
        i = end;
    }
    assert(bytes@.skip(n as int) =~= Seq::<u8>::empty());
    assert(output@ + Seq::<u8>::empty() =~= output@);
    Ok(output)
}

} // verus!

verus! {

/// The bytes of an all-ASCII character sequence.
pub open spec fn ascii_bytes(s: Seq<char>) -> Seq<u8> {
    s.map_values(|c: char| (c as u32) as u8)
}

/// True when `c` is one of the characters that base64 text is made of.
pub open spec fn is_base64_text_char(c: char) -> bool {
    ('A' <= c <= 'Z') || ('a' <= c <= 'z') || ('0' <= c <= '9') || c == '+' || c == '/'
        || c == '='
}

proof fn lemma_symbol_value(v: u8)
    requires
        v < 64,
    ensures
        is_base64_text_char(b64_symbol(v)),
        b64_symbol(v) != '=',
        b64_value((b64_symbol(v) as u32) as u8) == Some(v),
        (b64_symbol(v) as u32) < 128,
{
}

/// Base64 text written by the encoder is made of the alphabet and `=` only, and
/// has four characters for every started group of three bytes.
pub proof fn base64_text_shape(data: Seq<u8>)
    ensures
        forall|i: int|
            0 <= i < spec_base64_encode(data).len() ==> is_base64_text_char(
                #[trigger] spec_base64_encode(data)[i],
            ),
        spec_base64_encode(data).len() == 4 * ((data.len() + 2) / 3),
    decreases data.len(),
{
    let e = spec_base64_encode(data);
    if data.len() == 0 {
    } else {
        let b0 = data[0];
        let b1: u8 = if data.len() > 1 { data[1] } else { 0 };
        let b2: u8 = if data.len() > 2 { data[2] } else { 0 };
        lemma_sextets(b0, b1, b2);
        lemma_symbol_value(b0 >> 2u8);
        lemma_symbol_value(((b0 & 3u8) << 4u8) | (b1 >> 4u8));
        lemma_symbol_value(((b1 & 15u8) << 2u8) | (b2 >> 6u8));
        lemma_symbol_value(b2 & 63u8);
        if data.len() > 3 {
            base64_text_shape(data.skip(3));
            let g = encode_group(b0, b1, b2, 3);
            assert forall|i: int| 0 <= i < e.len() implies is_base64_text_char(#[trigger] e[i]) by {
                if i >= 4 {
                    assert(e[i] == spec_base64_encode(data.skip(3))[i - 4]);
                } else {
                    assert(e[i] == g[i]);
                }
            }
        }
    }
}

proof fn lemma_text_untouched(s: Seq<char>)
    requires
        forall|i: int| 0 <= i < s.len() ==> is_base64_text_char(#[trigger] s[i]),
    ensures
        trim(s) == s,
        drop_gaps(s) == s,
        encode_utf8(s) == ascii_bytes(s),
    decreases s.len(),
{
    if s.len() > 0 {
        assert(is_base64_text_char(s[0]));
        assert(is_base64_text_char(s.last()));
        assert(!is_white_space(s[0]));
        assert(!is_white_space(s.last()));
        assert(trim_start(s) == s);
        lemma_text_untouched(s.drop_last());
        lemma_text_untouched(s.drop_first());
        assert(s.drop_last().push(s.last()) =~= s);
        let c = s[0];
        let v = c as u32;
        assert(v < 128);
        assert((v & 0x7F) as u8 == v as u8) by (bit_vector)
            requires
                v < 128,
        ;
        assert(encode_scalar(v) =~= seq![v as u8]);
        assert(ascii_bytes(s) =~= seq![v as u8] + ascii_bytes(s.drop_first()));
    } else {
        assert(ascii_bytes(s) =~= Seq::<u8>::empty());
    }
}

proof fn lemma_decode_group(b0: u8, b1: u8, b2: u8, n: int)
    requires
        1 <= n <= 3,
        n < 2 ==> b1 == 0,
        n < 3 ==> b2 == 0,
    ensures
        decode_chunk(ascii_bytes(encode_group(b0, b1, b2, n))) == Some(
            seq![b0, b1, b2].take(n),
        ),
{
    let v0 = b0 >> 2u8;
    let v1 = ((b0 & 3u8) << 4u8) | (b1 >> 4u8);
    let v2 = ((b1 & 15u8) << 2u8) | (b2 >> 6u8);
    let v3 = b2 & 63u8;
    lemma_sextets(b0, b1, b2);
    lemma_symbol_value(v0);
    lemma_symbol_value(v1);
    lemma_symbol_value(v2);
    lemma_symbol_value(v3);
    let g = encode_group(b0, b1, b2, n);
    let chunk = ascii_bytes(g);
    assert(chunk.len() == 4);
    assert(chunk[0] == (b64_symbol(v0) as u32) as u8);
    assert(chunk[1] == (b64_symbol(v1) as u32) as u8);
    if n > 1 {
        assert(chunk[2] == (b64_symbol(v2) as u32) as u8);
    } else {
        assert(chunk[2] == 61);
    }
    if n > 2 {
        assert(chunk[3] == (b64_symbol(v3) as u32) as u8);
    } else {
        assert(chunk[3] == 61);
    }
    lemma_pad_pos(chunk, n + 1);
    assert(sextet(chunk, 0) == v0);
    assert(sextet(chunk, 1) == v1);
    assert(n > 1 ==> sextet(chunk, 2) == v2);
    assert(n > 2 ==> sextet(chunk, 3) == v3);
    assert((v0 << 2u8) | (v1 >> 4u8) == b0) by (bit_vector)
        requires
            v0 == b0 >> 2u8,
            v1 == ((b0 & 3u8) << 4u8) | (b1 >> 4u8),
    ;
    assert((v1 << 4u8) | (v2 >> 2u8) == b1) by (bit_vector)
        requires
            v1 == ((b0 & 3u8) << 4u8) | (b1 >> 4u8),
            v2 == ((b1 & 15u8) << 2u8) | (b2 >> 6u8),
    ;
    assert((v2 << 6u8) | v3 == b2) by (bit_vector)
        requires
            v2 == ((b1 & 15u8) << 2u8) | (b2 >> 6u8),
            v3 == b2 & 63u8,
    ;
    assert(!exists|j: int| 0 <= j < n + 1 && #[trigger] b64_value(chunk[j]) is None);
    assert(decode_chunk(chunk).unwrap() =~= seq![b0, b1, b2].take(n));
}

proof fn lemma_decode_encoded(data: Seq<u8>)
    ensures
        decode_bytes(ascii_bytes(spec_base64_encode(data))) == Some(data),
    decreases data.len(),
{
    let e = spec_base64_encode(data);
    if data.len() == 0 {
        assert(ascii_bytes(e) =~= Seq::<u8>::empty());
    } else if data.len() <= 3 {
        let n = data.len() as int;
        let b0 = data[0];
        let b1: u8 = if n > 1 { data[1] } else { 0 };
        let b2: u8 = if n > 2 { data[2] } else { 0 };
        lemma_decode_group(b0, b1, b2, n);
        assert(seq![b0, b1, b2].take(n) =~= data);
    } else {
        let b0 = data[0];
        let b1 = data[1];
        let b2 = data[2];
        let g = encode_group(b0, b1, b2, 3);
        let rest = spec_base64_encode(data.skip(3));
        lemma_decode_group(b0, b1, b2, 3);
        lemma_decode_encoded(data.skip(3));
        assert(rest.len() > 0) by {
            base64_text_shape(data.skip(3));
        }
        assert(e == g + rest);
        let bytes = ascii_bytes(e);
        assert(bytes.len() > 4);
        assert(bytes.take(4) =~= ascii_bytes(g));
        assert(bytes.skip(4) =~= ascii_bytes(rest));
        assert(seq![b0, b1, b2].take(3) + data.skip(3) =~= data);
    }
}

/// Decoding what `encode` produced gives the encoded bytes back: base64 text
/// written by the encoder is accepted by the decoder and loses nothing.
pub proof fn base64_round_trip(data: Seq<u8>)
    ensures
        spec_base64_decode(spec_base64_encode(data)) == Some(data),
{
    base64_text_shape(data);
    lemma_text_untouched(spec_base64_encode(data));
    lemma_decode_encoded(data);
}

proof fn lemma_drop_gaps_concat(a: Seq<char>, b: Seq<char>)
    ensures
        drop_gaps(a + b) == drop_gaps(a) + drop_gaps(b),
    decreases b.len(),
{
    if b.len() == 0 {
        assert(a + b =~= a);
        assert(drop_gaps(a) + drop_gaps(b) =~= drop_gaps(a));
    } else {
        lemma_drop_gaps_concat(a, b.drop_last());
        assert((a + b).drop_last() =~= a + b.drop_last());
        assert((a + b).last() == b.last());
        if !is_gap(b.last()) {
            assert(drop_gaps(a) + drop_gaps(b.drop_last()).push(b.last()) =~= (drop_gaps(a)
                + drop_gaps(b.drop_last())).push(b.last()));
        }
    }
}

proof fn lemma_drop_gaps_first(x: Seq<char>)
    requires
        x.len() > 0,
    ensures
        drop_gaps(x) == (if is_gap(x[0]) {
            drop_gaps(x.drop_first())
        } else {
            seq![x[0]] + drop_gaps(x.drop_first())
        }),
{
    assert(x =~= seq![x[0]] + x.drop_first());
    lemma_drop_gaps_concat(seq![x[0]], x.drop_first());
    let one = seq![x[0]];
    assert(one.drop_last() =~= Seq::<char>::empty());
    assert(drop_gaps(Seq::<char>::empty()) =~= Seq::<char>::empty());
    if is_gap(x[0]) {
        assert(drop_gaps(one) =~= Seq::<char>::empty());
        assert(Seq::<char>::empty() + drop_gaps(x.drop_first()) =~= drop_gaps(x.drop_first()));
    } else {
        assert(drop_gaps(one) =~= one);
    }
}

proof fn lemma_drop_gaps_trim_end(x: Seq<char>)
    ensures
        drop_gaps(trim_end(x)) == trim_end(drop_gaps(x)),
    decreases x.len(),
{
    if x.len() > 0 {
        let c = x.last();
        lemma_drop_gaps_trim_end(x.drop_last());
        if is_white_space(c) {
            if !is_gap(c) {
                let d = drop_gaps(x.drop_last()).push(c);
                assert(d.drop_last() =~= drop_gaps(x.drop_last()));
            }
        } else {
            assert(!is_gap(c));
            let d = drop_gaps(x.drop_last()).push(c);
            assert(d.last() == c);
        }
    }
}

proof fn lemma_drop_gaps_trim_start(x: Seq<char>)
    ensures
        drop_gaps(trim_start(x)) == trim_start(drop_gaps(x)),
    decreases x.len(),
{
    if x.len() > 0 {
        let c = x[0];
        lemma_drop_gaps_trim_start(x.drop_first());
        lemma_drop_gaps_first(x);
        if is_white_space(c) {
            if !is_gap(c) {
                let d = seq![c] + drop_gaps(x.drop_first());
                assert(d[0] == c);
                assert(d.drop_first() =~= drop_gaps(x.drop_first()));
            }
        } else {
            assert(!is_gap(c));
            let d = seq![c] + drop_gaps(x.drop_first());
            assert(d[0] == c);
        }
    }
}

/// The decoder reads the same bytes from a text and from that text with its
/// gaps removed first: trimming and dropping gaps can be done in either order.
proof fn lemma_drop_gaps_trim(x: Seq<char>)
    ensures
        drop_gaps(trim(x)) == trim(drop_gaps(x)),
{
    lemma_drop_gaps_trim_start(x);
    lemma_drop_gaps_trim_end(trim_start(x));
}

/// Spaces and line breaks may be inserted anywhere in base64 text, or removed
/// from it, without changing what it decodes to: two texts that are equal once
/// their `' '`, `'\n'` and `'\r'` are removed decode alike.
pub proof fn base64_decode_ignores_gaps(s: Seq<char>, t: Seq<char>)
    requires
        drop_gaps(s) == drop_gaps(t),
    ensures
        spec_base64_decode(s) == spec_base64_decode(t),
{
    lemma_drop_gaps_trim(s);
    lemma_drop_gaps_trim(t);
}

/// True when `c` is one of the 64 characters of the base64 alphabet.
pub open spec fn is_alphabet_char(c: char) -> bool {
    ('A' <= c <= 'Z') || ('a' <= c <= 'z') || ('0' <= c <= '9') || c == '+' || c == '/'
}

/// The 6-bit value of a character of the base64 alphabet.
pub open spec fn char_value(c: char) -> u8 {
    b64_value((c as u32) as u8).unwrap()
}

/// A group of four characters as the encoder writes it: two characters of the
/// alphabet, then two more, or (only in the last group) one more and `=` with the
/// two unused low bits of the third character zero, or `==` with the four unused
/// low bits of the second character zero.
pub open spec fn canonical_group(g: Seq<char>, last: bool) -> bool {
    &&& g.len() == 4
    &&& is_alphabet_char(g[0])
    &&& is_alphabet_char(g[1])
    &&& {
        ||| is_alphabet_char(g[2]) && is_alphabet_char(g[3])
        ||| last && is_alphabet_char(g[2]) && g[3] == '=' && char_value(g[2]) & 3u8 == 0
        ||| last && g[2] == '=' && g[3] == '=' && char_value(g[1]) & 15u8 == 0
    }
}

/// Canonical padded base64 text: groups of four characters, each as the encoder
/// writes it, padding only in the last group.
pub open spec fn canonical_base64(s: Seq<char>) -> bool
    decreases s.len(),
{
    if s.len() == 0 {
        true
    } else if s.len() < 4 {
        false
    } else if s.len() == 4 {
        canonical_group(s, true)
    } else {
        canonical_group(s.take(4), false) && canonical_base64(s.skip(4))
    }
}

proof fn lemma_alphabet_char(c: char)
    requires
        is_alphabet_char(c),
    ensures
        (c as u32) < 128,
        (c as u32) as u8 != 61,
        b64_value((c as u32) as u8) is Some,
        char_value(c) < 64,
        b64_symbol(char_value(c)) == c,
        is_base64_text_char(c),
{
}

proof fn lemma_full_group_bits(v0: u8, v1: u8, v2: u8, v3: u8)
    requires
        v0 < 64,
        v1 < 64,
        v2 < 64,
        v3 < 64,
    ensures
        ({
            let b0 = (v0 << 2u8) | (v1 >> 4u8);
            let b1 = (v1 << 4u8) | (v2 >> 2u8);
            let b2 = (v2 << 6u8) | v3;
            &&& b0 >> 2u8 == v0
            &&& ((b0 & 3u8) << 4u8) | (b1 >> 4u8) == v1
            &&& ((b1 & 15u8) << 2u8) | (b2 >> 6u8) == v2
            &&& b2 & 63u8 == v3
        }),
{
    assert(((v0 << 2u8) | (v1 >> 4u8)) >> 2u8 == v0) by (bit_vector)
        requires
            v0 < 64,
            v1 < 64,
    ;
    assert(((((v0 << 2u8) | (v1 >> 4u8)) & 3u8) << 4u8) | (((v1 << 4u8) | (v2 >> 2u8)) >> 4u8)
        == v1) by (bit_vector)
        requires
            v1 < 64,
            v2 < 64,
    ;
    assert(((((v1 << 4u8) | (v2 >> 2u8)) & 15u8) << 2u8) | (((v2 << 6u8) | v3) >> 6u8) == v2)
        by (bit_vector)
        requires
            v2 < 64,
            v3 < 64,
    ;
    assert(((v2 << 6u8) | v3) & 63u8 == v3) by (bit_vector)
        requires
            v3 < 64,
    ;
}

proof fn lemma_short_group_bits(v0: u8, v1: u8, v2: u8)
    requires
        v0 < 64,
        v1 < 64,
        v2 < 64,
    ensures
        v2 & 3u8 == 0 ==> ((((v1 << 4u8) | (v2 >> 2u8)) & 15u8) << 2u8) | (0u8 >> 6u8) == v2,
        v1 & 15u8 == 0 ==> ((((v0 << 2u8) | (v1 >> 4u8)) & 3u8) << 4u8) | (0u8 >> 4u8) == v1,
{
    assert(v2 & 3u8 == 0 ==> ((((v1 << 4u8) | (v2 >> 2u8)) & 15u8) << 2u8) | (0u8 >> 6u8) == v2)
        by (bit_vector)
        requires
            v2 < 64,
    ;
    assert(v1 & 15u8 == 0 ==> ((((v0 << 2u8) | (v1 >> 4u8)) & 3u8) << 4u8) | (0u8 >> 4u8) == v1)
        by (bit_vector)
        requires
            v1 < 64,
    ;
}

proof fn lemma_canonical_group(g: Seq<char>, last: bool)
    requires
        canonical_group(g, last),
    ensures
        decode_chunk(ascii_bytes(g)) matches Some(d) && 1 <= d.len() <= 3 && (!last ==> d.len() == 3)
            && encode_group(
            d[0],
            if d.len() > 1 {
                d[1]
            } else {
                0
            },
            if d.len() > 2 {
                d[2]
            } else {
                0
            },
            d.len() as int,
        ) == g,
{
    let chunk = ascii_bytes(g);
    lemma_alphabet_char(g[0]);
    lemma_alphabet_char(g[1]);
    let v0 = char_value(g[0]);
    let v1 = char_value(g[1]);
    assert(chunk[0] == (g[0] as u32) as u8);
    assert(chunk[1] == (g[1] as u32) as u8);
    if is_alphabet_char(g[2]) {
        lemma_alphabet_char(g[2]);
        assert(chunk[2] == (g[2] as u32) as u8);
    }
    if is_alphabet_char(g[3]) {
        lemma_alphabet_char(g[3]);
        assert(chunk[3] == (g[3] as u32) as u8);
    }
    let k: int = if is_alphabet_char(g[2]) && is_alphabet_char(g[3]) {
        4
    } else if is_alphabet_char(g[2]) {
        3
    } else {
        2
    };
    if k < 4 {
        assert(chunk[3] == 61);
    }
    if k < 3 {
        assert(chunk[2] == 61);
    }
    lemma_pad_pos(chunk, k);
    assert(!exists|j: int| 0 <= j < k && #[trigger] b64_value(chunk[j]) is None);
    let v2 = sextet(chunk, 2);
    let v3 = sextet(chunk, 3);
    assert(sextet(chunk, 0) == v0);
    assert(sextet(chunk, 1) == v1);
    if k >= 3 {
        assert(v2 == char_value(g[2]));
    }
    if k >= 4 {
        assert(v3 == char_value(g[3]));
    }
    lemma_full_group_bits(v0, v1, v2, v3);
    lemma_short_group_bits(v0, v1, v2);
    let d = decode_chunk(chunk).unwrap();
    assert(d.len() == k - 1);
    let b0 = (v0 << 2u8) | (v1 >> 4u8);
    let b1 = (v1 << 4u8) | (v2 >> 2u8);
    let b2 = (v2 << 6u8) | v3;
    assert(d[0] == b0);
    if k >= 3 {
        assert(d[1] == b1);
    }
    if k >= 4 {
        assert(d[2] == b2);
    }
    let e = encode_group(
        d[0],
        if d.len() > 1 {
            d[1]
        } else {
            0
        },
        if d.len() > 2 {
            d[2]
        } else {
            0
        },
        d.len() as int,
    );
    assert(e =~= g);
}

proof fn lemma_canonical_decode(s: Seq<char>)
    requires
        canonical_base64(s),
    ensures
        decode_bytes(ascii_bytes(s)) matches Some(d) && spec_base64_encode(d) == s,
        forall|i: int| 0 <= i < s.len() ==> is_base64_text_char(#[trigger] s[i]),
    decreases s.len(),
{
    if s.len() == 0 {
        assert(ascii_bytes(s) =~= Seq::<u8>::empty());
    } else {
        let g = s.take(4);
        let last = s.len() == 4;
        lemma_canonical_group(g, last);
        let d1 = decode_chunk(ascii_bytes(g)).unwrap();
        assert forall|i: int| 0 <= i < 4 implies is_base64_text_char(#[trigger] g[i]) by {
            if is_alphabet_char(g[i]) {
                lemma_alphabet_char(g[i]);
            }
        }
        if last {
            assert(g =~= s);
            assert(ascii_bytes(s).len() == 4);
            if d1.len() == 3 {
                assert(d1.skip(3) =~= Seq::<u8>::empty());
                assert(spec_base64_encode(d1) == encode_group(d1[0], d1[1], d1[2], 3)
                    + spec_base64_encode(d1.skip(3)));
                assert(encode_group(d1[0], d1[1], d1[2], 3) + Seq::<char>::empty() =~= s);
            }
        } else {
            let rest = s.skip(4);
            lemma_canonical_decode(rest);
            let d2 = decode_bytes(ascii_bytes(rest)).unwrap();
            let b = ascii_bytes(s);
            assert(b.take(4) =~= ascii_bytes(g));
            assert(b.skip(4) =~= ascii_bytes(rest));
            let d = d1 + d2;
            assert(decode_bytes(b) == Some(d));
            assert(d.skip(3) =~= d2);
            assert(d[0] == d1[0] && d[1] == d1[1] && d[2] == d1[2]);
            assert(spec_base64_encode(d) == encode_group(d[0], d[1], d[2], 3) + spec_base64_encode(
                d.skip(3),
            ));
            assert(g + rest =~= s);
            assert forall|i: int| 0 <= i < s.len() implies is_base64_text_char(#[trigger] s[i]) by {
                if i < 4 {
                    assert(s[i] == g[i]);
                } else {
                    assert(s[i] == rest[i - 4]);
                }
            }
        }
    }
}

/// Canonical padded base64 text is accepted by the decoder, and encoding the
/// bytes it decodes to gives the same text back.
pub proof fn base64_canonical_round_trip(s: Seq<char>)
    requires
        canonical_base64(s),
    ensures
        spec_base64_decode(s) matches Some(d) && spec_base64_encode(d) == s,
{
    lemma_canonical_decode(s);
    lemma_text_untouched(s);
}

/// The decoder reads a byte as sextet `v` exactly when it is the `v`-th character
/// of the standard alphabet.
pub proof fn decoder_reads_alphabet(c: u8, v: u8)
    ensures
        (b64_value(c) == Some(v)) <==> (v < 64 && (base64_alphabet()[v as int] as u32) == c as u32),
{
    if v < 64 {
        symbols_follow_alphabet(v);
        lemma_symbol_value(v);
    }
    if b64_value(c) == Some(v) {
        assert(v < 64);
        assert(b64_symbol(v) as u32 == c as u32);
    }
}

proof fn lemma_decode_bytes_concat(b1: Seq<u8>, b2: Seq<u8>)
    requires
        b1.len() % 4 == 0,
    ensures
        decode_bytes(b1 + b2) == (match (decode_bytes(b1), decode_bytes(b2)) {
            (Some(x), Some(y)) => Some(x + y),
            _ => None,
        }),
    decreases b1.len(),
{
    if b1.len() == 0 {
        assert(b1 + b2 =~= b2);
        if let Some(y) = decode_bytes(b2) {
            assert(Seq::<u8>::empty() + y =~= y);
        }
    } else {
        let c = b1.take(4);
        let r = b1.skip(4);
        let b = b1 + b2;
        lemma_decode_bytes_concat(r, b2);
        assert(b.take(4) =~= c);
        assert(b.skip(4) =~= r + b2);
        if b1.len() == 4 {
            assert(c =~= b1);
            assert(r =~= Seq::<u8>::empty());
            assert(r + b2 =~= b2);
            if b2.len() == 0 {
                assert(b =~= b1);
                if let Some(x) = decode_bytes(b1) {
                    assert(x + Seq::<u8>::empty() =~= x);
                }
            }
        }
        match (decode_chunk(c), decode_bytes(r), decode_bytes(b2)) {
            (Some(o), Some(x), Some(y)) => {
                assert(o + (x + y) =~= (o + x) + y);
                if b1.len() == 4 {
                    assert(o + x =~= o);
                }
            },
            _ => {},
        }
    }
}

/// Base64 text made of whole groups of four decodes group by group: placing
/// other base64 text after it decodes to the concatenation of what the two
/// pieces decode to, and fails when either piece fails.
pub proof fn decode_concatenates(s: Seq<char>, t: Seq<char>)
    requires
        s.len() % 4 == 0,
        forall|i: int| 0 <= i < s.len() ==> is_base64_text_char(#[trigger] s[i]),
        forall|i: int| 0 <= i < t.len() ==> is_base64_text_char(#[trigger] t[i]),
    ensures
        spec_base64_decode(s + t) == (match (spec_base64_decode(s), spec_base64_decode(t)) {
            (Some(x), Some(y)) => Some(x + y),
            _ => None,
        }),
{
    let st = s + t;
    assert forall|i: int| 0 <= i < st.len() implies is_base64_text_char(#[trigger] st[i]) by {
        if i < s.len() {
            assert(st[i] == s[i]);
        } else {
            assert(st[i] == t[i - s.len()]);
        }
    }
    lemma_text_untouched(s);
    lemma_text_untouched(t);
    lemma_text_untouched(st);
    assert(ascii_bytes(st) =~= ascii_bytes(s) + ascii_bytes(t));
    lemma_decode_bytes_concat(ascii_bytes(s), ascii_bytes(t));
}

/// A group of four characters whose sextets `v0`..`v3` are read as positions in
/// the standard alphabet decodes to the bytes `v0*4 + v1/16`,
/// `(v1 % 16)*16 + v2/4` and `(v2 % 4)*64 + v3`; a group ending in `=` gives the
/// first two of them, one ending in `==` the first.
pub proof fn decode_group_values(v0: u8, v1: u8, v2: u8, v3: u8, pad: int)
    requires
        v0 < 64,
        v1 < 64,
        v2 < 64,
        v3 < 64,
        0 <= pad <= 2,
    ensures
        ({
            let a = base64_alphabet();
            let text = seq![
                a[v0 as int],
                a[v1 as int],
                if pad == 2 {
                    '='
                } else {
                    a[v2 as int]
                },
                if pad >= 1 {
                    '='
                } else {
                    a[v3 as int]
                },
            ];
            spec_base64_decode(text) == Some(
                seq![
                    (v0 * 4 + v1 / 16) as u8,
                    ((v1 % 16) * 16 + v2 / 4) as u8,
                    ((v2 % 4) * 64 + v3) as u8,
                ].take(3 - pad),
            )
        }),
{
    let a = base64_alphabet();
    let text = seq![
        a[v0 as int],
        a[v1 as int],
        if pad == 2 {
            '='
        } else {
            a[v2 as int]
        },
        if pad >= 1 {
            '='
        } else {
            a[v3 as int]
        },
    ];
    symbols_follow_alphabet(v0);
    symbols_follow_alphabet(v1);
    symbols_follow_alphabet(v2);
    symbols_follow_alphabet(v3);
    lemma_symbol_value(v0);
    lemma_symbol_value(v1);
    lemma_symbol_value(v2);
    lemma_symbol_value(v3);
    assert forall|i: int| 0 <= i < text.len() implies is_base64_text_char(#[trigger] text[i]) by {}
    lemma_text_untouched(text);
    let chunk = ascii_bytes(text);
    assert(chunk.len() == 4);
    assert(chunk[0] == (b64_symbol(v0) as u32) as u8);
    assert(chunk[1] == (b64_symbol(v1) as u32) as u8);
    if pad < 2 {
        assert(chunk[2] == (b64_symbol(v2) as u32) as u8);
    } else {
        assert(chunk[2] == 61);
    }
    if pad < 1 {
        assert(chunk[3] == (b64_symbol(v3) as u32) as u8);
    } else {
        assert(chunk[3] == 61);
    }
    lemma_pad_pos(chunk, 4 - pad);
    assert(!exists|j: int| 0 <= j < 4 - pad && #[trigger] b64_value(chunk[j]) is None);
    assert(sextet(chunk, 0) == v0);
    assert(sextet(chunk, 1) == v1);
    let s2 = sextet(chunk, 2);
    let s3 = sextet(chunk, 3);
    assert(pad < 2 ==> s2 == v2);
    assert(pad < 1 ==> s3 == v3);
    assert((v0 << 2u8) | (v1 >> 4u8) == (v0 * 4u8 + v1 / 16u8) as u8) by (bit_vector)
        requires
            v0 < 64,
            v1 < 64,
    ;
    assert((v1 << 4u8) | (v2 >> 2u8) == ((v1 % 16u8) * 16u8 + v2 / 4u8) as u8) by (bit_vector)
        requires
            v1 < 64,
            v2 < 64,
    ;
    assert((v2 << 6u8) | v3 == ((v2 % 4u8) * 64u8 + v3) as u8) by (bit_vector)
        requires
            v2 < 64,
            v3 < 64,
    ;
    let d = decode_chunk(chunk).unwrap();
    assert(d =~= seq![
        (v0 * 4 + v1 / 16) as u8,
        ((v1 % 16) * 16 + v2 / 4) as u8,
        ((v2 % 4) * 64 + v3) as u8,
    ].take(3 - pad));
}

/// A space or a line break inserted anywhere in base64 text does not change
/// what the text decodes to.
pub proof fn base64_decode_ignores_inserted_gap(a: Seq<char>, g: char, b: Seq<char>)
    requires
        g == ' ' || g == '\n' || g == '\r',
    ensures
        spec_base64_decode(a + seq![g] + b) == spec_base64_decode(a + b),
{
    let one = seq![g];
    lemma_drop_gaps_concat(a + one, b);
    lemma_drop_gaps_concat(a, one);
    lemma_drop_gaps_concat(a, b);
    assert(one.drop_last() =~= Seq::<char>::empty());
    assert(drop_gaps(Seq::<char>::empty()) =~= Seq::<char>::empty());
    assert(drop_gaps(a) + drop_gaps(one) =~= drop_gaps(a));
    base64_decode_ignores_gaps(a + one + b, a + b);
}

/// The base64 part of a data URL is everything after its first comma; text with
/// no comma is taken whole.
pub proof fn data_url_payload_follows_first_comma(head: Seq<char>, rest: Seq<char>)
    requires
        forall|i: int| 0 <= i < head.len() ==> head[i] != ',',
    ensures
        data_url_payload(head + seq![','] + rest) == rest,
        data_url_payload(head) == head,
{
    let s = head + seq![','] + rest;
    assert forall|t: int| 0 <= t < head.len() implies s[t] != ',' by {
        assert(s[t] == head[t]);
    }
    lemma_comma_pos(s, head.len() as int);
    assert(s.skip(head.len() + 1int) =~= rest);
    lemma_comma_pos(head, head.len() as int);
}

} // verus!
