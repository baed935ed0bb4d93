//! Character-level helpers shared by the codecs and the window bookkeeping.

use vstd::prelude::*;
use vstd::utf8::*;
use vstd::string::StringExecFns;

verus! {

broadcast use vstd::string::group_string_axioms;

/// Collects the characters of `s`, in order.
pub fn str_chars(s: &str) -> (v: Vec<char>)
    ensures
        v@ == s@,
{
    let mut v: Vec<char> = Vec::new();
    for c in it: s.chars()
        invariant
            v@ == it.seq().take(it.index() as int),
            it.seq() == s@,
    {
        v.push(c);
    }
    v
}

/// `String::push`: appends one character at the end of the string.
#[verifier::external_body]
pub(crate) fn string_push(s: &mut String, c: char)
    ensures
        final(s)@ == old(s)@.push(c),
{
    s.push(c);
}

/// Builds a `String` holding exactly the characters of `chars`.
pub fn string_from_chars(chars: &[char]) -> (r: String)
    ensures
        r@ == chars@,
{
    let mut r = String::new();
    let n = chars.len();
    for i in 0..n
        invariant
            n == chars@.len(),
            r@ == chars@.take(i as int),
    {
        string_push(&mut r, chars[i]);
        assert(chars@.take(i + 1) =~= chars@.take(i as int).push(chars@[i as int]));
    }
    assert(chars@.take(n as int) =~= chars@);
    r
}

/// The Unicode `White_Space` property, which `str::trim` and `char::is_whitespace` use.
pub open spec fn is_white_space(c: char) -> bool {
    let v = c as u32;
    ||| 0x09 <= v <= 0x0D
    ||| v == 0x20
    ||| v == 0x85
    ||| v == 0xA0
    ||| v == 0x1680
    ||| 0x2000 <= v <= 0x200A
    ||| v == 0x2028
    ||| v == 0x2029
    ||| v == 0x202F
    ||| v == 0x205F
    ||| v == 0x3000
}

/// Executable `is_white_space`.
pub fn white_space(c: char) -> (b: bool)
    ensures
        b == is_white_space(c),
{
    let v = c as u32;
    (0x09 <= v && v <= 0x0D) || v == 0x20 || v == 0x85 || v == 0xA0 || v == 0x1680 || (0x2000
        <= v && v <= 0x200A) || v == 0x2028 || v == 0x2029 || v == 0x202F || v == 0x205F || v
        == 0x3000
}

/// `s` without its leading white space.
pub open spec fn trim_start(s: Seq<char>) -> Seq<char>
    decreases s.len(),
{
    if s.len() > 0 && is_white_space(s[0]) {
        trim_start(s.drop_first())
    } else {
        s
    }
}

/// `s` without its trailing white space.
pub open spec fn trim_end(s: Seq<char>) -> Seq<char>
    decreases s.len(),
{
    if s.len() > 0 && is_white_space(s.last()) {
        trim_end(s.drop_last())
    } else {
        s
    }
}

/// `s` without leading and trailing white space, as `str::trim` gives it.
pub open spec fn trim(s: Seq<char>) -> Seq<char> {
    trim_end(trim_start(s))
}

/// True when every character of `s` is white space (so that `trim` leaves nothing).
pub open spec fn all_white_space(s: Seq<char>) -> bool {
    forall|i: int| 0 <= i < s.len() ==> is_white_space(#[trigger] s[i])
}

/// Bounds of the trimmed part of `s`: `trim(s) == s[lo..hi]`.
pub fn trim_bounds(s: &Vec<char>) -> (r: (usize, usize))
    ensures
        r.0 <= r.1 <= s.len(),
        trim(s@) == s@.subrange(r.0 as int, r.1 as int),
{
    let n = s.len();
    let mut lo: usize = 0;
    assert(s@.subrange(0, n as int) =~= s@);
    while lo < n && white_space(s[lo])
        invariant
            lo <= n,
            n == s@.len(),
            trim_start(s@) == trim_start(s@.subrange(lo as int, n as int)),
        decreases n - lo,
    {
        assert(s@.subrange(lo as int, n as int).drop_first() =~= s@.subrange(lo + 1, n as int));
        lo = lo + 1;
    }
    let mut hi: usize = n;
    while hi > lo && white_space(s[hi - 1])
        invariant
            lo <= hi <= n,
            n == s@.len(),
            trim_end(s@.subrange(lo as int, n as int)) == trim_end(
                s@.subrange(lo as int, hi as int),
            ),
        decreases hi - lo,
    {
        assert(s@.subrange(lo as int, hi as int).drop_last() =~= s@.subrange(
            lo as int,
            hi - 1,
        ));
        hi = hi - 1;
    }
    (lo, hi)
}

/// Proves that `trim` is empty exactly when every character is white space.
pub proof fn lemma_trim_empty(s: Seq<char>)
    ensures
        (trim(s).len() == 0) == all_white_space(s),
    decreases s.len(),
{
    lemma_trim_start_empty(s);
    lemma_trim_end_empty(trim_start(s));
}

proof fn lemma_trim_start_empty(s: Seq<char>)
    ensures
        (trim_start(s).len() == 0) == all_white_space(s),
        trim_start(s).len() > 0 ==> !is_white_space(trim_start(s)[0]),
    decreases s.len(),
{
    if s.len() > 0 && is_white_space(s[0]) {
        lemma_trim_start_empty(s.drop_first());
        if all_white_space(s.drop_first()) {
            assert forall|i: int| 0 <= i < s.len() implies is_white_space(#[trigger] s[i]) by {
                if i > 0 {
                    assert(s[i] == s.drop_first()[i - 1]);
                }
            }
        }
        if all_white_space(s) {
            assert forall|i: int| 0 <= i < s.drop_first().len() implies is_white_space(
                #[trigger] s.drop_first()[i],
            ) by {
                assert(s.drop_first()[i] == s[i + 1]);
            }
        }
    } else if s.len() > 0 {
        assert(!is_white_space(s[0]));
    }
}

proof fn lemma_trim_end_empty(s: Seq<char>)
    requires
        s.len() > 0 ==> !is_white_space(s[0]),
    ensures
        (trim_end(s).len() == 0) == (s.len() == 0),
    decreases s.len(),
{
    if s.len() > 0 && is_white_space(s.last()) {
        assert(s.len() > 1);
        assert(s.drop_last()[0] == s[0]);
        lemma_trim_end_empty(s.drop_last());
    }
}

/// Appends the UTF-8 encoding of `c` to `out`.
pub fn push_utf8(out: &mut Vec<u8>, c: char)
    ensures
        final(out)@ == old(out)@ + encode_scalar(c as u32),
{
    let v = c as u32;
    if v <= 0x7F {
        out.push((v & 0x7F) as u8);
    } else if 0x80 <= v && v <= 0x7FF {
        out.push(0xC0 | ((v >> 6) & 0x1F) as u8);
        out.push(0x80 | (v & 0x3F) as u8);
    } else if 0x800 <= v && v <= 0xFFFF && !(0xD800 <= v && v <= 0xDFFF) {
        out.push(0xE0 | ((v >> 12) & 0x0F) as u8);
        out.push(0x80 | ((v >> 6) & 0x3F) as u8);
        out.push(0x80 | (v & 0x3F) as u8);
    } else {
        out.push(0xF0 | ((v >> 18) & 0x7) as u8);
        out.push(0x80 | ((v >> 12) & 0x3F) as u8);
        out.push(0x80 | ((v >> 6) & 0x3F) as u8);
        out.push(0x80 | (v & 0x3F) as u8);
    }
    assert(final(out)@ =~= old(out)@ + encode_scalar(c as u32));
}

/// `encode_utf8` distributes over appending one character.
pub proof fn lemma_encode_utf8_push(s: Seq<char>, c: char)
    ensures
        encode_utf8(s.push(c)) == encode_utf8(s) + encode_scalar(c as u32),
    decreases s.len(),
{
    if s.len() == 0 {
        assert(s.push(c).drop_first() =~= Seq::<char>::empty());
        assert(encode_utf8(Seq::<char>::empty()) =~= Seq::<u8>::empty());
        assert(encode_utf8(s.push(c)) =~= encode_scalar(c as u32));
    } else {
        lemma_encode_utf8_push(s.drop_first(), c);
        assert(s.push(c).drop_first() =~= s.drop_first().push(c));
        assert(encode_utf8(s.push(c)) =~= encode_utf8(s) + encode_scalar(c as u32));
    }
}

/// The UTF-8 bytes of `chars[lo..hi]`.
pub fn utf8_bytes_of(chars: &Vec<char>, lo: usize, hi: usize) -> (r: Vec<u8>)
    requires
        lo <= hi <= chars.len(),
    ensures
        r@ == encode_utf8(chars@.subrange(lo as int, hi as int)),
{
    let mut r: Vec<u8> = Vec::new();
    let mut i = lo;
    while i < hi
        invariant
            lo <= i <= hi <= chars.len(),
            r@ == encode_utf8(chars@.subrange(lo as int, i as int)),
        decreases hi - i,
    {
        proof {
            lemma_encode_utf8_push(chars@.subrange(lo as int, i as int), chars@[i as int]);
            assert(chars@.subrange(lo as int, i + 1) =~= chars@.subrange(lo as int, i as int).push(
                chars@[i as int],
            ));
        }
        push_utf8(&mut r, chars[i]);
        i = i + 1;
    }
    r
}

/// Whether two strings hold the same characters.
pub fn str_is(s: &str, lit: &str) -> (b: bool)
    ensures
        b == (s@ == lit@),
{
    let a = str_chars(s);
    let t = str_chars(lit);
    chars_equal(&a, &t)
}

/// Whether two character vectors are equal.
pub fn chars_equal(a: &Vec<char>, b: &Vec<char>) -> (r: bool)
    ensures
        r == (a@ == b@),
{
    if a.len() != b.len() {
        return false;
    }
    let n = a.len();
    for i in 0..n
        invariant
            n == a@.len(),
            n == b@.len(),
            forall|j: int| 0 <= j < i ==> a@[j] == b@[j],
    {
        if a[i] != b[i] {
            return false;
        }
    }
    assert(a@ =~= b@);
    true
}

/// The decimal digit for `d < 10`.
pub open spec fn digit_char(d: nat) -> char {
    ((48 + d) as u8) as char
}

/// Decimal notation of `n`, without leading zeros (`"0"` for zero).
pub open spec fn spec_decimal(n: nat) -> Seq<char>
    decreases n,
{
    if n < 10 {
        seq![digit_char(n)]
    } else {
        spec_decimal(n / 10).push(digit_char(n % 10))
    }
}

/// Decimal notation of a signed integer, with a leading `-` when negative.
pub open spec fn spec_signed_decimal(n: int) -> Seq<char> {
    if n < 0 {
        seq!['-'] + spec_decimal((-n) as nat)
    } else {
        spec_decimal(n as nat)
    }
}

/// Appends the decimal notation of `n` to `s`.
pub fn push_decimal(s: &mut String, n: u64)
    ensures
        final(s)@ == old(s)@ + spec_decimal(n as nat),
    decreases n,
{
    if n >= 10 {
        push_decimal(s, n / 10);
    }
    let d = (n % 10) as u8;
    string_push(s, (48u8 + d) as char);
    assert(final(s)@ =~= old(s)@ + spec_decimal(n as nat));
}

/// Appends the decimal notation of a signed `n` to `s`.
pub fn push_signed_decimal(s: &mut String, n: i64)
    requires
        n > i64::MIN,
    ensures
        final(s)@ == old(s)@ + spec_signed_decimal(n as int),
{
    if n < 0 {
        string_push(s, '-');
        push_decimal(s, (-n) as u64);
        assert(final(s)@ =~= old(s)@ + spec_signed_decimal(n as int));
    } else {
        push_decimal(s, n as u64);
    }
}

/// A new string holding `a` followed by `b`.
pub fn concat_str(a: &str, b: &str) -> (r: String)
    ensures
        r@ == a@ + b@,
{
    let mut r = String::from_str(a);
    r.append(b);
    r
}

/// The text that `String::from_utf8_lossy` makes of `bytes`.
pub uninterp spec fn spec_utf8_lossy(bytes: Seq<u8>) -> Seq<char>;

/// `String::from_utf8_lossy`, made owned: decodes `bytes` as UTF-8, putting
/// U+FFFD in place of each invalid sequence. The contract names the result and
/// states that valid UTF-8 is decoded as it is; how invalid sequences are
/// replaced is not described.
#[verifier::external_body]
pub(crate) fn utf8_lossy(bytes: &[u8]) -> (r: String)
    ensures
        r@ == spec_utf8_lossy(bytes@),
        valid_utf8(bytes@) ==> r@ == decode_utf8(bytes@),
{
    String::from_utf8_lossy(bytes).into_owned()
}

/// A UTF-16 code unit that opens a surrogate pair.
pub open spec fn is_lead_surrogate(u: u16) -> bool {
    0xD800 <= u <= 0xDBFF
}

/// A UTF-16 code unit that closes a surrogate pair.
pub open spec fn is_trail_surrogate(u: u16) -> bool {
    0xDC00 <= u <= 0xDFFF
}

/// The scalar value that a surrogate pair stands for.
pub open spec fn pair_scalar(lead: u16, trail: u16) -> u32 {
    (0x10000 + (lead - 0xD800) * 0x400 + (trail - 0xDC00)) as u32
}

/// The replacement character U+FFFD.
pub open spec fn replacement_char() -> char {
    0xFFFDu32 as char
}

/// The text that `String::from_utf16_lossy` makes of `units`: a unit outside the
/// surrogate range is its own character, a lead surrogate followed by a trail
/// surrogate is the character of the pair, and any other surrogate is replaced
/// by U+FFFD (the unit after an unpaired lead is read afresh).
pub open spec fn utf16_lossy(units: Seq<u16>) -> Seq<char>
    decreases units.len(),
{
    if units.len() == 0 {
        Seq::empty()
    } else if units.len() >= 2 && is_lead_surrogate(units[0]) && is_trail_surrogate(units[1]) {
        seq![pair_scalar(units[0], units[1]) as char] + utf16_lossy(units.skip(2))
    } else if is_lead_surrogate(units[0]) || is_trail_surrogate(units[0]) {
        seq![replacement_char()] + utf16_lossy(units.drop_first())
    } else {
        seq![(units[0] as u32) as char] + utf16_lossy(units.drop_first())
    }
}

/// A surrogate that is not part of a pair (a trail surrogate, or a lead surrogate
/// not followed by a trail one) decodes as U+FFFD, and decoding goes on with the
/// unit after it.
pub proof fn lone_surrogates_are_replaced(u: u16, rest: Seq<u16>)
    requires
        0xDC00 <= u <= 0xDFFF || (0xD800 <= u <= 0xDBFF && (rest.len() == 0 || !(0xDC00 <= rest[0]
            <= 0xDFFF))),
    ensures
        utf16_lossy(seq![u] + rest) == seq!['\u{FFFD}'] + utf16_lossy(rest),
{
    let units = seq![u] + rest;
    assert(units[0] == u);
    assert(units.drop_first() =~= rest);
    if units.len() >= 2 {
        assert(units[1] == rest[0]);
    }
}

/// A unit outside the surrogate range decodes as the character with that value.
pub proof fn plain_units_are_characters(u: u16, rest: Seq<u16>)
    requires
        !(0xD800 <= u <= 0xDFFF),
    ensures
        utf16_lossy(seq![u] + rest) == seq![(u as u32) as char] + utf16_lossy(rest),
        ((u as u32) as char) as u32 == u as u32,
{
    let units = seq![u] + rest;
    assert(units[0] == u);
    assert(units.drop_first() =~= rest);
}

/// `char::from_u32`: the character with scalar value `v`, `None` when `v` is a
/// surrogate or above `0x10FFFF`.
#[verifier::external_body]
pub(crate) fn char_from_u32(v: u32) -> (r: Option<char>)
    ensures
        match r {
            Some(c) => is_scalar(v) && c as u32 == v,
            None => !is_scalar(v),
        },
{
    char::from_u32(v)
}

/// The character with scalar value `v`, which is known to be one.
fn scalar_char(v: u32) -> (c: char)
    requires
        is_scalar(v),
    ensures
        c == v as char,
{
    match char_from_u32(v) {
        Some(c) => {
            proof {
                char_u32_cast(c, v);
            }
            c
        },
        None => '\u{FFFD}',
    }
}

/// `String::from_utf16_lossy` of the first `len` units of `units`.
pub fn utf16_lossy_prefix(units: &[u16], len: usize) -> (r: String)
    requires
        len <= units.len(),
    ensures
        r@ == utf16_lossy(units@.take(len as int)),
{
    let ghost all = units@.take(len as int);
    let mut out = String::new();
    let mut i: usize = 0;
    assert(all.skip(0) =~= all);
    while i < len
        invariant
            i <= len <= units.len(),
            all == units@.take(len as int),
            utf16_lossy(all) == out@ + utf16_lossy(all.skip(i as int)),
        decreases len - i,
    {
        let ghost rest = all.skip(i as int);
        let ghost before = out@;
        let u = units[i];
        assert(rest[0] == u);
        if 0xD800 <= u && u <= 0xDBFF && i + 1 < len && 0xDC00 <= units[i + 1] && units[i + 1]
            <= 0xDFFF {
            let t = units[i + 1];
            assert(rest[1] == t);
            let v: u32 = 0x10000 + ((u - 0xD800) as u32) * 0x400 + ((t - 0xDC00) as u32);
            assert(v == pair_scalar(u, t));
            string_push(&mut out, scalar_char(v));
            assert(rest.skip(2) =~= all.skip(i + 2));
            assert(out@ + utf16_lossy(all.skip(i + 2)) =~= before + (seq![v as char] + utf16_lossy(
                rest.skip(2),
            )));
            i = i + 2;
        } else {
            let c = if 0xD800 <= u && u <= 0xDFFF {
                '\u{FFFD}'
            } else {
                scalar_char(u as u32)
            };
            proof {
                if 0xD800 <= u && u <= 0xDFFF {
                    assert(c == replacement_char());
                }
            }
            string_push(&mut out, c);
            assert(rest.drop_first() =~= all.skip(i + 1));
            assert(out@ + utf16_lossy(all.skip(i + 1)) =~= before + (seq![c] + utf16_lossy(
                rest.drop_first(),
            )));
            i = i + 1;
        }
    }
    assert(all.skip(len as int) =~= Seq::<u16>::empty());
    assert(out@ + Seq::<char>::empty() =~= out@);
    out
}

/// The UTF-16 code units of one character: one unit up to `0xFFFF`, a
/// surrogate pair above.
pub open spec fn encode_utf16_char(c: char) -> Seq<u16> {
    let v = c as u32;
    if v <= 0xFFFF {
        seq![v as u16]
    } else {
        seq![
            (0xD800 + (v - 0x10000) / 0x400) as u16,
            (0xDC00 + (v - 0x10000) % 0x400) as u16,
        ]
    }
}

/// The UTF-16 encoding of `s`.
pub open spec fn encode_utf16(s: Seq<char>) -> Seq<u16>
    decreases s.len(),
{
    if s.len() == 0 {
        Seq::empty()
    } else {
        encode_utf16_char(s[0]) + encode_utf16(s.drop_first())
    }
}

/// Well-formed UTF-16 loses nothing: decoding the UTF-16 encoding of a text, as
/// `String::from_utf16_lossy` does, gives that text back.
pub proof fn utf16_round_trip(s: Seq<char>)
    ensures
        utf16_lossy(encode_utf16(s)) == s,
    decreases s.len(),
{
    if s.len() > 0 {
        let c = s[0];
        let v = c as u32;
        let rest = encode_utf16(s.drop_first());
        let e = encode_utf16(s);
        utf16_round_trip(s.drop_first());
        char_is_scalar(c);
        char_u32_cast(c, v);
        if v <= 0xFFFF {
            let u = v as u16;
            assert(e[0] == u);
            assert(e.drop_first() =~= rest);
            assert(!is_lead_surrogate(u) && !is_trail_surrogate(u));
            assert((u as u32) == v);
        } else {
            let h = (v - 0x10000) / 0x400;
            let l = (v - 0x10000) % 0x400;
            assert(h < 0x400) by {
                assert(v - 0x10000 < 0x100000);
            }
            assert(h * 0x400 + l == v - 0x10000);
            let lead = (0xD800 + h) as u16;
            let trail = (0xDC00 + l) as u16;
            assert(e[0] == lead);
            assert(e[1] == trail);
            assert(e.skip(2) =~= rest);
            assert(pair_scalar(lead, trail) == v);
        }
        assert(s =~= seq![c] + s.drop_first());
    }
}

/// The lowercase hexadecimal digit for `d < 16`.
pub open spec fn hex_digit_char(d: nat) -> char {
    if d < 10 {
        ((48 + d) as u8) as char
    } else {
        ((87 + d) as u8) as char
    }
}

/// Lowercase hexadecimal notation of `n`, without leading zeros (`"0"` for zero),
/// as `format!("{:x}", n)` writes it.
pub open spec fn spec_lower_hex(n: nat) -> Seq<char>
    decreases n,
{
    if n < 16 {
        seq![hex_digit_char(n)]
    } else {
        spec_lower_hex(n / 16).push(hex_digit_char(n % 16))
    }
}

/// Appends the lowercase hexadecimal notation of `n` to `s`.
fn push_lower_hex(s: &mut String, n: u64)
    ensures
        final(s)@ == old(s)@ + spec_lower_hex(n as nat),
    decreases n,
{
    if n >= 16 {
        push_lower_hex(s, n / 16);
    }
    let d = (n % 16) as u8;
    let c = if d < 10 {
        (48u8 + d) as char
    } else {
        (87u8 + d) as char
    };
    string_push(s, c);
    assert(final(s)@ =~= old(s)@ + spec_lower_hex(n as nat));
}

/// Lowercase hexadecimal notation of `n`.
pub fn lower_hex(n: u64) -> (r: String)
    ensures
        r@ == spec_lower_hex(n as nat),
{
    let mut s = String::new();
    push_lower_hex(&mut s, n);
    assert(s@ =~= spec_lower_hex(n as nat));
    s
}

/// The number that a string of digits spells in base `base`, reading each
/// character by `digit` (most significant digit first).
pub open spec fn digits_value(s: Seq<char>, base: nat, hex: bool) -> int
    decreases s.len(),
{
    if s.len() == 0 {
        0
    } else {
        digits_value(s.drop_last(), base, hex) * base + digit_value(s.last(), hex)
    }
}

/// The value of a decimal digit, or (with `hex`) of a lowercase hexadecimal one.
pub open spec fn digit_value(c: char, hex: bool) -> int {
    if hex && 'a' <= c <= 'f' {
        (c as u32) - 87
    } else {
        (c as u32) - 48
    }
}

/// Decimal notation is made of the digits `0`-`9`, starts with `0` only for zero,
/// and spells `n`.
pub proof fn decimal_spells_number(n: nat)
    ensures
        forall|i: int|
            0 <= i < spec_decimal(n).len() ==> '0' <= #[trigger] spec_decimal(n)[i] <= '9',
        spec_decimal(n).len() > 0,
        spec_decimal(n)[0] == '0' ==> n == 0,
        digits_value(spec_decimal(n), 10, false) == n,
    decreases n,
{
    let s = spec_decimal(n);
    let d = n % 10;
    assert(digit_value(digit_char(d), false) == d);
    assert(s.last() == digit_char(d));
    assert(s.drop_last().len() == 0 ==> digits_value(s.drop_last(), 10, false) == 0);
    if n >= 10 {
        let p = spec_decimal(n / 10);
        decimal_spells_number(n / 10);
        assert(s.drop_last() == p);
        assert((n / 10) * 10 + d == n);
        assert(s[0] == p[0]);
        assert forall|i: int| 0 <= i < s.len() implies '0' <= #[trigger] s[i] <= '9' by {
            if i < p.len() {
                assert(s[i] == p[i]);
            }
        }
    }
}

/// Lowercase hexadecimal notation is made of `0`-`9` and `a`-`f`, starts with `0`
/// only for zero, and spells `n` in base 16.
pub proof fn lower_hex_spells_number(n: nat)
    ensures
        forall|i: int|
            0 <= i < spec_lower_hex(n).len() ==> ('0' <= #[trigger] spec_lower_hex(n)[i] <= '9') || ('a'
                <= spec_lower_hex(n)[i] <= 'f'),
        spec_lower_hex(n).len() > 0,
        spec_lower_hex(n)[0] == '0' ==> n == 0,
        digits_value(spec_lower_hex(n), 16, true) == n,
    decreases n,
{
    let s = spec_lower_hex(n);
    let d = n % 16;
    assert(digit_value(hex_digit_char(d), true) == d);
    assert(s.last() == hex_digit_char(d));
    assert(s.drop_last().len() == 0 ==> digits_value(s.drop_last(), 16, true) == 0);
    if n >= 16 {
        let p = spec_lower_hex(n / 16);
        lower_hex_spells_number(n / 16);
        assert(s.drop_last() == p);
        assert((n / 16) * 16 + d == n);
        assert(s[0] == p[0]);
        assert forall|i: int| 0 <= i < s.len() implies ('0' <= #[trigger] s[i] <= '9') || ('a' <= s[i]
            <= 'f') by {
            if i < p.len() {
                assert(s[i] == p[i]);
            }
        }
    }
}

proof fn lemma_trim_start_shape(s: Seq<char>)
    ensures
        trim_start(s).len() <= s.len(),
        trim_start(s) == s.skip(s.len() - trim_start(s).len()),
        all_white_space(s.take(s.len() - trim_start(s).len())),
        trim_start(s).len() > 0 ==> !is_white_space(trim_start(s)[0]),
    decreases s.len(),
{
    if s.len() > 0 && is_white_space(s[0]) {
        let t = s.drop_first();
        lemma_trim_start_shape(t);
        let k = s.len() - trim_start(t).len();
        assert(s.skip(k) =~= t.skip(t.len() - trim_start(t).len()));
        assert forall|i: int| 0 <= i < k implies is_white_space(#[trigger] s.take(k)[i]) by {
            if i > 0 {
                assert(s.take(k)[i] == t.take(k - 1)[i - 1]);
            }
        }
    } else {
        assert(s.skip(0) =~= s);
    }
}

proof fn lemma_trim_end_shape(s: Seq<char>)
    ensures
        trim_end(s).len() <= s.len(),
        trim_end(s) == s.take(trim_end(s).len() as int),
        all_white_space(s.skip(trim_end(s).len() as int)),
        trim_end(s).len() > 0 ==> !is_white_space(trim_end(s).last()),
        trim_end(s).len() > 0 ==> trim_end(s)[0] == s[0],
    decreases s.len(),
{
    if s.len() > 0 && is_white_space(s.last()) {
        let p = s.drop_last();
        lemma_trim_end_shape(p);
        let k = trim_end(p).len() as int;
        assert(s.take(k) =~= p.take(k));
        assert forall|i: int| 0 <= i < s.len() - k implies is_white_space(#[trigger] s.skip(k)[i]) by {
            if k + i < p.len() {
                assert(s.skip(k)[i] == p.skip(k)[i]);
            }
        }
        if k > 0 {
            assert(p[0] == s[0]);
        }
    } else {
        assert(s.take(s.len() as int) =~= s);
        assert(s.skip(s.len() as int).len() == 0);
    }
}

/// Trimming removes exactly the white space at both ends: the text is some white
/// space, then the trimmed text, then some white space, and the trimmed text
/// neither starts nor ends with white space.
pub proof fn trim_removes_outer_white_space(s: Seq<char>)
    ensures
        exists|lo: int|
            {
                &&& 0 <= lo
                &&& lo + trim(s).len() <= s.len()
                &&& #[trigger] s.subrange(lo, lo + trim(s).len()) == trim(s)
                &&& all_white_space(s.take(lo))
                &&& all_white_space(s.skip(lo + trim(s).len()))
            },
        trim(s).len() > 0 ==> !is_white_space(trim(s)[0]) && !is_white_space(trim(s).last()),
{
    let ts = trim_start(s);
    lemma_trim_start_shape(s);
    lemma_trim_end_shape(ts);
    let t = trim(s);
    let lo = s.len() - ts.len();
    assert(s.subrange(lo, lo + t.len()) =~= ts.take(t.len() as int));
    assert(s.skip(lo + t.len()) =~= ts.skip(t.len() as int));
    assert(s.subrange(lo, lo + t.len()) == t);
}

/// Signed decimal notation is a `-` followed by the digits of the magnitude for
/// a negative number, and the digits of the number otherwise.
pub proof fn signed_decimal_spells_number(n: int)
    ensures
        n < 0 ==> spec_signed_decimal(n)[0] == '-' && digits_value(spec_signed_decimal(n).skip(1), 10, false)
            == -n,
        n >= 0 ==> digits_value(spec_signed_decimal(n), 10, false) == n,
{
    if n < 0 {
        decimal_spells_number((-n) as nat);
        assert(spec_signed_decimal(n).skip(1) =~= spec_decimal((-n) as nat));
    } else {
        decimal_spells_number(n as nat);
    }
}

} // verus!
