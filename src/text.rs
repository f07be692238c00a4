//! Character-level building blocks: UTF-16 little-endian code units,
//! decimal numerals and hexadecimal text.
use vstd::prelude::*;
use vstd::string::*;

verus! {

/// The two bytes of a 16-bit unit, low byte first.
pub open spec fn le16(x: u16) -> Seq<u8> {
    seq![(x % 256) as u8, (x / 256) as u8]
}

/// A sequence of 16-bit units laid out little-endian.
pub open spec fn le_units(u: Seq<u16>) -> Seq<u8>
    decreases u.len(),
{
    if u.len() == 0 {
        seq![]
    } else {
        le_units(u.drop_last()) + le16(u.last())
    }
}

/// The 16-bit unit stored little-endian at byte offset `i`.
pub open spec fn unit_at(b: Seq<u8>, i: int) -> u16 {
    (b[i] as int + 256 * b[i + 1] as int) as u16
}

pub open spec fn is_high_surrogate(u: u16) -> bool {
    0xD800 <= u && u <= 0xDBFF
}

pub open spec fn is_low_surrogate(u: u16) -> bool {
    0xDC00 <= u && u <= 0xDFFF
}

pub open spec fn is_surrogate(u: u16) -> bool {
    0xD800 <= u && u <= 0xDFFF
}

/// UTF-16 code units of one Unicode scalar value.
pub open spec fn point_units(v: u32) -> Seq<u16> {
    if v < 0x10000 {
        seq![v as u16]
    } else {
        seq![(0xD800 + (v - 0x10000) / 0x400) as u16, (0xDC00 + (v - 0x10000) % 0x400) as u16]
    }
}

/// The scalar values of a character sequence.
pub open spec fn points(cs: Seq<char>) -> Seq<u32> {
    cs.map_values(|c: char| c as u32)
}

/// UTF-16 code units of a sequence of scalar values.
pub open spec fn points_units(p: Seq<u32>) -> Seq<u16>
    decreases p.len(),
{
    if p.len() == 0 {
        seq![]
    } else {
        points_units(p.drop_last()) + point_units(p.last())
    }
}

/// UTF-16 code units of a text.
pub open spec fn text_units(cs: Seq<char>) -> Seq<u16> {
    points_units(points(cs))
}

/// The scalar value of a surrogate pair.
pub open spec fn pair_point(hi: u16, lo: u16) -> u32 {
    (0x10000 + (hi - 0xD800) * 0x400 + (lo - 0xDC00)) as u32
}

/// Lossy UTF-16 decoding: a surrogate that is not part of a well-formed
/// pair becomes U+FFFD.
pub open spec fn decode_points(u: Seq<u16>) -> Seq<u32>
    decreases u.len(),
{
    if u.len() == 0 {
        seq![]
    } else if u.len() >= 2 && is_high_surrogate(u[0]) && is_low_surrogate(u[1]) {
        seq![pair_point(u[0], u[1])] + decode_points(u.subrange(2, u.len() as int))
    } else if is_surrogate(u[0]) {
        seq![0xFFFDu32] + decode_points(u.subrange(1, u.len() as int))
    } else {
        seq![u[0] as u32] + decode_points(u.subrange(1, u.len() as int))
    }
}

/// The character with a given scalar value.
pub open spec fn char_of(v: u32) -> char {
    v as char
}

/// Lossy UTF-16 decoding into characters.
pub open spec fn decode_chars(u: Seq<u16>) -> Seq<char> {
    decode_points(u).map_values(|v: u32| char_of(v))
}

/// The 16-bit little-endian units of a byte sequence; an odd last byte is
/// ignored.
pub open spec fn le_to_units(b: Seq<u8>) -> Seq<u16> {
    Seq::new(b.len() / 2, |i: int| unit_at(b, 2 * i))
}

/// A character sequence is fixed by its scalar values.
pub proof fn lemma_chars_of_points(cs: Seq<char>)
    ensures
        points(cs).map_values(|v: u32| char_of(v)) == cs,
{
    let p = points(cs).map_values(|v: u32| char_of(v));
    assert forall|i: int| 0 <= i < cs.len() implies p[i] == cs[i] by {
        vstd::utf8::char_u32_cast(cs[i], points(cs)[i]);
    }
    assert(p =~= cs);
}

/// Well-formed UTF-16: every surrogate belongs to a high/low pair.
pub open spec fn valid_utf16(u: Seq<u16>) -> bool
    decreases u.len(),
{
    if u.len() == 0 {
        true
    } else if u.len() >= 2 && is_high_surrogate(u[0]) && is_low_surrogate(u[1]) {
        valid_utf16(u.subrange(2, u.len() as int))
    } else {
        !is_surrogate(u[0]) && valid_utf16(u.subrange(1, u.len() as int))
    }
}

/// Relies on `String::push`: appends one character.
#[verifier::external_body]
pub(crate) fn push_char(s: &mut String, c: char)
    ensures
        final(s)@ == old(s)@.push(c),
{
    s.push(c)
}

/// Relies on `char::from_u32`: a value is a character exactly when it is a
/// Unicode scalar value, and the character has that value.
#[verifier::external_body]
fn char_from_u32(v: u32) -> (r: Option<char>)
    ensures
        r is Some <==> (v < 0xD800 || (0xE000 <= v && v <= 0x10FFFF)),
        r is Some ==> r->Some_0 as u32 == v,
{
    char::from_u32(v)
}

/// The characters of a string slice.
pub fn chars_of(s: &str) -> (r: Vec<char>)
    ensures
        r@ == s@,
{
    let n = s.unicode_len();
    let mut r: Vec<char> = Vec::new();
    let mut i: usize = 0;
    while i < n
        invariant
            n == s@.len(),
            i <= n,
            r@ == s@.subrange(0, i as int),
        decreases n - i,
    {
        r.push(s.get_char(i));
        i = i + 1;
        assert(r@ == s@.subrange(0, i as int));
    }
    r
}

/// A string holding the given characters.
pub fn string_of(cs: &[char]) -> (r: String)
    ensures
        r@ == cs@,
{
    let mut r = String::new();
    let mut i: usize = 0;
    while i < cs.len()
        invariant
            i <= cs@.len(),
            r@ == cs@.subrange(0, i as int),
        decreases cs@.len() - i,
    {
        push_char(&mut r, cs[i]);
        i = i + 1;
        assert(r@ == cs@.subrange(0, i as int));
    }
    r
}

/// Appends the UTF-16 code units of one character.
fn push_char_units(out: &mut Vec<u16>, c: char)
    ensures
        final(out)@ == old(out)@ + point_units(c as u32),
{
    let v = c as u32;
    if v < 0x10000 {
        out.push(v as u16);
    } else {
        out.push((0xD800 + (v - 0x10000) / 0x400) as u16);
        out.push((0xDC00 + (v - 0x10000) % 0x400) as u16);
    }
}

/// The UTF-16 code units of a text.
pub fn encode_utf16(cs: &[char]) -> (r: Vec<u16>)
    ensures
        r@ == text_units(cs@),
{
    let mut r: Vec<u16> = Vec::new();
    let mut i: usize = 0;
    while i < cs.len()
        invariant
            i <= cs@.len(),
            r@ == text_units(cs@.subrange(0, i as int)),
        decreases cs@.len() - i,
    {
        proof {
            let p = points(cs@.subrange(0, i as int + 1));
            assert(p.drop_last() == points(cs@.subrange(0, i as int)));
        }
        push_char_units(&mut r, cs[i]);
        i = i + 1;
    }
    assert(cs@.subrange(0, cs@.len() as int) == cs@);
    r
}

/// Appends a 16-bit unit low byte first.
pub fn push_le16(out: &mut Vec<u8>, x: u16)
    ensures
        final(out)@ == old(out)@ + le16(x),
{
    out.push((x % 256) as u8);
    out.push((x / 256) as u8);
}

/// The little-endian bytes of a sequence of units.
pub fn units_to_le(u: &[u16]) -> (r: Vec<u8>)
    ensures
        r@ == le_units(u@),
{
    let mut r: Vec<u8> = Vec::new();
    let mut i: usize = 0;
    while i < u.len()
        invariant
            i <= u@.len(),
            r@ == le_units(u@.subrange(0, i as int)),
        decreases u@.len() - i,
    {
        assert(u@.subrange(0, i as int + 1).drop_last() == u@.subrange(0, i as int));
        push_le16(&mut r, u[i]);
        i = i + 1;
    }
    assert(u@.subrange(0, u@.len() as int) == u@);
    r
}

/// Lossy UTF-16 decoding into a string.
pub fn decode_utf16_lossy(u: &[u16]) -> (r: String)
    ensures
        points(r@) == decode_points(u@),
        r@ == decode_chars(u@),
{
    let mut r = String::new();
    let mut i: usize = 0;
    assert(u@.subrange(0, u@.len() as int) == u@);
    assert(points(r@) =~= seq![]);
    while i < u.len()
        invariant
            i <= u@.len(),
            points(r@) + decode_points(u@.subrange(i as int, u@.len() as int)) == decode_points(u@),
        decreases u@.len() - i,
    {
        let ghost rest = u@.subrange(i as int, u@.len() as int);
        let ghost before = r@;
        let x = u[i];
        if i + 1 < u.len() && 0xD800 <= x && x <= 0xDBFF && 0xDC00 <= u[i + 1] && u[i + 1] <= 0xDFFF {
            let y = u[i + 1];
            let v: u32 = 0x10000 + (x as u32 - 0xD800) * 0x400 + (y as u32 - 0xDC00);
            let c = char_from_u32(v);
            match c {
                Some(c) => push_char(&mut r, c),
                None => {},
            }
            proof {
                assert(rest.subrange(2, rest.len() as int) == u@.subrange(i + 2, u@.len() as int));
                assert(points(r@) == points(before) + seq![pair_point(x, y)]);
            }
            i = i + 2;
        } else {
            let c = char_from_u32(if 0xD800 <= x && x <= 0xDFFF { 0xFFFD } else { x as u32 });
            match c {
                Some(c) => push_char(&mut r, c),
                None => {},
            }
            proof {
                assert(rest.subrange(1, rest.len() as int) == u@.subrange(i + 1, u@.len() as int));
                let v: u32 = if is_surrogate(x) { 0xFFFDu32 } else { x as u32 };
                assert(points(r@) == points(before) + seq![v]);
            }
            i = i + 1;
        }
    }
    proof {
        assert(points(r@) + decode_points(seq![]) == points(r@));
        lemma_chars_of_points(r@);
    }
    r
}

/// The little-endian units of a byte range; an odd last byte is ignored.
pub fn read_units(b: &[u8], start: usize, end: usize) -> (r: Vec<u16>)
    requires
        start <= end <= b@.len(),
    ensures
        r@ == le_to_units(b@.subrange(start as int, end as int)),
{
    let mut r: Vec<u16> = Vec::new();
    let n: usize = (end - start) / 2;
    let mut i: usize = 0;
    while i < n
        invariant
            start <= end <= b@.len(),
            n == (end - start) / 2,
            i <= n,
            r@ =~= le_to_units(b@.subrange(start as int, end as int)).subrange(0, i as int),
        decreases n - i,
    {
        let lo = b[start + 2 * i];
        let hi = b[start + 2 * i + 1];
        r.push((lo as u16) + 256 * (hi as u16));
        i = i + 1;
    }
    r
}

/// Appends bytes.
pub fn extend_bytes(out: &mut Vec<u8>, src: &[u8])
    ensures
        final(out)@ == old(out)@ + src@,
{
    let mut i: usize = 0;
    while i < src.len()
        invariant
            i <= src@.len(),
            out@ == old(out)@ + src@.subrange(0, i as int),
        decreases src@.len() - i,
    {
        out.push(src[i]);
        i = i + 1;
        assert(out@ =~= old(out)@ + src@.subrange(0, i as int));
    }
    assert(src@.subrange(0, src@.len() as int) == src@);
}

/// The decimal digit characters.
pub open spec fn digit_char(d: int) -> char {
    seq!['0', '1', '2', '3', '4', '5', '6', '7', '8', '9'][d]
}

/// The decimal numeral of a number, without leading zeros.
pub open spec fn decimal(n: nat) -> Seq<char>
    decreases n,
{
    if n < 10 {
        seq![digit_char(n as int)]
    } else {
        decimal(n / 10).push(digit_char((n % 10) as int))
    }
}

pub open spec fn is_digit(c: char) -> bool {
    '0' <= c && c <= '9'
}

/// A non-empty run of decimal digits.
pub open spec fn is_numeral(cs: Seq<char>) -> bool {
    cs.len() > 0 && forall|i: int| 0 <= i < cs.len() ==> is_digit(#[trigger] cs[i])
}

/// The number that a run of digits denotes.
pub open spec fn numeral_value(cs: Seq<char>) -> nat
    decreases cs.len(),
{
    if cs.len() == 0 {
        0
    } else {
        numeral_value(cs.drop_last()) * 10 + (cs.last() as u32 - 48) as nat
    }
}

/// Appends the decimal numeral of `n`.
pub fn push_decimal(s: &mut String, n: u32)
    ensures
        final(s)@ == old(s)@ + decimal(n as nat),
    decreases n,
{
    if n >= 10 {
        push_decimal(s, n / 10);
    }
    let d = n % 10;
    let c = if d == 0 { '0' } else if d == 1 { '1' } else if d == 2 { '2' } else if d == 3 {
        '3'
    } else if d == 4 { '4' } else if d == 5 { '5' } else if d == 6 { '6' } else if d == 7 {
        '7'
    } else if d == 8 { '8' } else { '9' };
    push_char(s, c);
}

/// The decimal numeral of `n` as a string.
pub fn decimal_string(n: u32) -> (r: String)
    ensures
        r@ == decimal(n as nat),
{
    let mut s = String::new();
    push_decimal(&mut s, n);
    s
}

proof fn lemma_digit_char(d: int)
    requires
        0 <= d < 10,
    ensures
        is_digit(digit_char(d)),
        digit_char(d) as u32 - 48 == d,
{
    let s = seq!['0', '1', '2', '3', '4', '5', '6', '7', '8', '9'];
    assert(s[0] == '0' && s[1] == '1' && s[2] == '2' && s[3] == '3' && s[4] == '4');
    assert(s[5] == '5' && s[6] == '6' && s[7] == '7' && s[8] == '8' && s[9] == '9');
}

pub proof fn lemma_decimal_value(n: nat)
    ensures
        is_numeral(decimal(n)),
        numeral_value(decimal(n)) == n,
    decreases n,
{
    if n < 10 {
        lemma_digit_char(n as int);
        assert(decimal(n).drop_last() =~= seq![]);
        assert(numeral_value(decimal(n)) == numeral_value(seq![]) * 10 + (digit_char(n as int) as u32 - 48) as nat);
    } else {
        lemma_digit_char((n % 10) as int);
        lemma_decimal_value(n / 10);
        let d = decimal(n / 10);
        assert(decimal(n).drop_last() == d);
        assert(decimal(n).last() == digit_char((n % 10) as int));
        assert(numeral_value(decimal(n)) == numeral_value(d) * 10 + (n % 10));
        assert forall|i: int| 0 <= i < decimal(n).len() implies is_digit(#[trigger] decimal(n)[i]) by {
            if i < d.len() {
                assert(decimal(n)[i] == d[i]);
            }
        }
    }
}

/// Reading a decimal numeral back gives the number it was written from.
pub proof fn lemma_parse_decimal(n: nat, bound: nat)
    requires
        n <= bound,
    ensures
        parse_decimal_spec(decimal(n), bound) == Some(n),
{
    lemma_decimal_value(n);
}

/// A decimal numeral no greater than `bound`, if the text is one.
pub open spec fn parse_decimal_spec(cs: Seq<char>, bound: nat) -> Option<nat> {
    if is_numeral(cs) && numeral_value(cs) <= bound {
        Some(numeral_value(cs))
    } else {
        None
    }
}

/// Reads a decimal numeral no greater than `bound`.
pub fn parse_decimal(cs: &[char], bound: u32) -> (r: Option<u32>)
    requires
        bound < 0x1000_0000,
    ensures
        r matches Some(v) ==> parse_decimal_spec(cs@, bound as nat) == Some(v as nat),
        r is None ==> parse_decimal_spec(cs@, bound as nat) is None,
{
    if cs.len() == 0 {
        return None;
    }
    let cap: u32 = bound + 1;
    let mut acc: u32 = 0;
    let mut i: usize = 0;
    while i < cs.len()
        invariant
            i <= cs@.len(),
            cap == bound + 1,
            bound < 0x1000_0000,
            forall|j: int| 0 <= j < i ==> is_digit(#[trigger] cs@[j]),
            acc as nat == if numeral_value(cs@.subrange(0, i as int)) < cap as nat {
                numeral_value(cs@.subrange(0, i as int))
            } else {
                cap as nat
            },
        decreases cs@.len() - i,
    {
        let c = cs[i];
        if !('0' <= c && c <= '9') {
            assert(!is_digit(cs@[i as int]));
            return None;
        }
        let d: u32 = c as u32 - 48;
        proof {
            let pre = cs@.subrange(0, i as int);
            assert(cs@.subrange(0, i as int + 1).drop_last() == pre);
            let v = numeral_value(pre);
            assert(numeral_value(cs@.subrange(0, i as int + 1)) == v * 10 + d);
            if v >= cap {
                assert(v * 10 + d >= cap) by (nonlinear_arith)
                    requires v >= cap;
            }
        }
        let next: u32 = acc * 10 + d;
        acc = if next < cap { next } else { cap };
        i = i + 1;
    }
    assert(cs@.subrange(0, cs@.len() as int) == cs@);
    if acc <= bound {
        Some(acc)
    } else {
        None
    }
}

/// Upper-case hexadecimal digits.
pub open spec fn hex_digit_upper(d: int) -> char {
    seq!['0', '1', '2', '3', '4', '5', '6', '7', '8', '9', 'A', 'B', 'C', 'D', 'E', 'F'][d]
}

/// Two upper-case hexadecimal digits per byte, high nibble first.
pub open spec fn hex_upper(b: Seq<u8>) -> Seq<char>
    decreases b.len(),
{
    if b.len() == 0 {
        seq![]
    } else {
        hex_upper(b.drop_last()) + seq![
            hex_digit_upper(b.last() as int / 16),
            hex_digit_upper(b.last() as int % 16),
        ]
    }
}

pub open spec fn is_hex_char(c: char) -> bool {
    ('0' <= c && c <= '9') || ('a' <= c && c <= 'f') || ('A' <= c && c <= 'F')
}

pub open spec fn hex_char_value(c: char) -> int {
    if '0' <= c && c <= '9' {
        c as u32 - 48
    } else if 'a' <= c && c <= 'f' {
        c as u32 - 87
    } else {
        c as u32 - 55
    }
}

/// Text of an even number of hexadecimal digits, either case.
pub open spec fn is_hex_text(cs: Seq<char>) -> bool {
    cs.len() % 2 == 0 && forall|i: int| 0 <= i < cs.len() ==> is_hex_char(#[trigger] cs[i])
}

/// The bytes that hexadecimal text denotes, two digits per byte.
pub open spec fn hex_bytes(cs: Seq<char>) -> Seq<u8>
    decreases cs.len(),
{
    if cs.len() < 2 {
        seq![]
    } else {
        hex_bytes(cs.subrange(0, cs.len() - 2)) + seq![
            (hex_char_value(cs[cs.len() - 2]) * 16 + hex_char_value(cs[cs.len() - 1])) as u8,
        ]
    }
}

/// Relies on `hex::encode_upper`: two upper-case digits per byte, high nibble
/// first.
#[verifier::external_body]
pub(crate) fn encode_hex_upper(b: &[u8]) -> (r: String)
    ensures
        r@ == hex_upper(b@),
{
    hex::encode_upper(b)
}

/// Relies on `hex::decode`: it accepts exactly an even number of hexadecimal
/// digits of either case, two per byte, high nibble first.
#[verifier::external_body]
pub(crate) fn decode_hex(s: &str) -> (r: Option<Vec<u8>>)
    ensures
        r is Some <==> is_hex_text(s@),
        r matches Some(v) ==> v@ == hex_bytes(s@),
{
    hex::decode(s).ok()
}

pub proof fn lemma_hex_digit(d: int)
    requires
        0 <= d < 16,
    ensures
        is_hex_char(hex_digit_upper(d)),
        hex_char_value(hex_digit_upper(d)) == d,
        hex_digit_upper(d) != ':',
{
    let s = seq!['0', '1', '2', '3', '4', '5', '6', '7', '8', '9', 'A', 'B', 'C', 'D', 'E', 'F'];
    assert(s[0] == '0' && s[1] == '1' && s[2] == '2' && s[3] == '3' && s[4] == '4' && s[5] == '5');
    assert(s[6] == '6' && s[7] == '7' && s[8] == '8' && s[9] == '9' && s[10] == 'A' && s[11] == 'B');
    assert(s[12] == 'C' && s[13] == 'D' && s[14] == 'E' && s[15] == 'F');
}

/// Whether a text is a non-empty run of decimal digits.
pub fn numeral_text(cs: &[char]) -> (r: bool)
    ensures
        r == is_numeral(cs@),
{
    if cs.len() == 0 {
        return false;
    }
    let mut i: usize = 0;
    while i < cs.len()
        invariant
            i <= cs@.len(),
            forall|j: int| 0 <= j < i ==> is_digit(#[trigger] cs@[j]),
        decreases cs@.len() - i,
    {
        if !('0' <= cs[i] && cs[i] <= '9') {
            assert(!is_digit(cs@[i as int]));
            return false;
        }
        i = i + 1;
    }
    true
}

/// A Unicode scalar value.
pub open spec fn is_scalar_value(v: u32) -> bool {
    v < 0xD800 || (0xE000 <= v && v <= 0x10FFFF)
}

proof fn lemma_points_units_concat(a: Seq<u32>, b: Seq<u32>)
    ensures
        points_units(a + b) == points_units(a) + points_units(b),
    decreases b.len(),
{
    if b.len() > 0 {
        assert((a + b).drop_last() == a + b.drop_last());
        lemma_points_units_concat(a, b.drop_last());
    }
}

proof fn lemma_pair_units(hi: u16, lo: u16)
    requires
        is_high_surrogate(hi),
        is_low_surrogate(lo),
    ensures
        point_units(pair_point(hi, lo)) == seq![hi, lo],
        is_scalar_value(pair_point(hi, lo)),
{
    let h = hi - 0xD800;
    let l = lo - 0xDC00;
    let v = 0x10000 + h * 0x400 + l;
    assert(0 <= h < 0x400 && 0 <= l < 0x400);
    assert(h * 0x400 + l < 0x100000) by (nonlinear_arith)
        requires 0 <= h < 0x400, 0 <= l < 0x400;
    assert((h * 0x400 + l) / 0x400 == h && (h * 0x400 + l) % 0x400 == l) by (nonlinear_arith)
        requires 0 <= h < 0x400, 0 <= l < 0x400;
    assert(pair_point(hi, lo) == v);
    assert(point_units(pair_point(hi, lo)) =~= seq![hi, lo]);
}

/// Lossy decoding yields scalar values only.
pub proof fn lemma_decode_points_scalar(u: Seq<u16>)
    ensures
        forall|i: int| 0 <= i < decode_points(u).len() ==> is_scalar_value(#[trigger] decode_points(u)[i]),
    decreases u.len(),
{
    if u.len() > 0 {
        let d = decode_points(u);
        if u.len() >= 2 && is_high_surrogate(u[0]) && is_low_surrogate(u[1]) {
            let rest = u.subrange(2, u.len() as int);
            lemma_decode_points_scalar(rest);
            lemma_pair_units(u[0], u[1]);
            assert forall|i: int| 0 <= i < d.len() implies is_scalar_value(#[trigger] d[i]) by {
                if i > 0 {
                    assert(d[i] == decode_points(rest)[i - 1]);
                }
            }
        } else {
            let rest = u.subrange(1, u.len() as int);
            lemma_decode_points_scalar(rest);
            assert forall|i: int| 0 <= i < d.len() implies is_scalar_value(#[trigger] d[i]) by {
                if i > 0 {
                    assert(d[i] == decode_points(rest)[i - 1]);
                }
            }
        }
    }
}

/// Well-formed UTF-16 decodes to characters that encode back to it.
pub proof fn lemma_utf16_round_trip(u: Seq<u16>)
    requires
        valid_utf16(u),
    ensures
        text_units(decode_chars(u)) == u,
{
    lemma_decode_points_scalar(u);
    let d = decode_points(u);
    assert(points(decode_chars(u)) =~= d) by {
        assert forall|i: int| 0 <= i < d.len() implies #[trigger] points(decode_chars(u))[i] == d[i] by {
            assert(is_scalar_value(d[i]));
        }
    }
    lemma_points_round_trip(u);
}

proof fn lemma_points_round_trip(u: Seq<u16>)
    requires
        valid_utf16(u),
    ensures
        points_units(decode_points(u)) == u,
    decreases u.len(),
{
    if u.len() > 0 {
        if u.len() >= 2 && is_high_surrogate(u[0]) && is_low_surrogate(u[1]) {
            let rest = u.subrange(2, u.len() as int);
            lemma_points_round_trip(rest);
            lemma_pair_units(u[0], u[1]);
            let p = pair_point(u[0], u[1]);
            lemma_points_units_concat(seq![p], decode_points(rest));
            assert(points_units(seq![p]) =~= point_units(p)) by {
                assert(seq![p].drop_last() =~= Seq::<u32>::empty());
                assert(points_units(Seq::<u32>::empty()) == Seq::<u16>::empty());
                assert(seq![p].last() == p);
                assert(Seq::<u16>::empty() + point_units(p) =~= point_units(p));
            }
            assert(u =~= seq![u[0], u[1]] + rest);
        } else {
            let rest = u.subrange(1, u.len() as int);
            lemma_points_round_trip(rest);
            let p = u[0] as u32;
            lemma_points_units_concat(seq![p], decode_points(rest));
            assert(points_units(seq![p]) =~= point_units(p)) by {
                assert(seq![p].drop_last() =~= Seq::<u32>::empty());
                assert(points_units(Seq::<u32>::empty()) == Seq::<u16>::empty());
                assert(seq![p].last() == p);
                assert(Seq::<u16>::empty() + point_units(p) =~= point_units(p));
            }
            assert(u =~= seq![u[0]] + rest);
        }
    }
}

/// Even-length bytes read as units and laid out again are unchanged.
pub proof fn lemma_le_round_trip(b: Seq<u8>)
    requires
        b.len() % 2 == 0,
    ensures
        le_units(le_to_units(b)) == b,
    decreases b.len(),
{
    if b.len() > 0 {
        let a = b.subrange(0, b.len() - 2);
        lemma_le_round_trip(a);
        let u = le_to_units(b);
        assert(u.drop_last() =~= le_to_units(a));
        let x = u.last();
        assert(x == unit_at(b, b.len() - 2));
        assert(le16(x) =~= b.subrange(b.len() - 2, b.len() as int));
        assert(b =~= a + b.subrange(b.len() - 2, b.len() as int));
    }
}

} // verus!
