//! Radix-32 text codec for fixed-size binary values.
//!
//! The bytes are cut into chunks of five (the last one may be shorter). A chunk of
//! `m` bytes is read as a big-endian number, shifted left so that its bit count
//! becomes a multiple of five, and written as `ceil(8 * m / 5)` characters of the
//! alphabet `0-9 A-H J K M N P-T V-Z`, most significant first.
use vstd::prelude::*;

verus! {

/// `base` raised to the power `k`.
pub open spec fn radix_pow(base: int, k: nat) -> int
    decreases k,
{
    if k == 0 {
        1
    } else {
        radix_pow(base, (k - 1) as nat) * base
    }
}

/// The big-endian value of the digits `s` in radix `base`.
pub open spec fn digits_value(s: Seq<u8>, base: int) -> int
    decreases s.len(),
{
    if s.len() == 0 {
        0
    } else {
        digits_value(s.drop_last(), base) * base + s.last() as int
    }
}

/// The `k` lowest digits of `x` in radix `base`, most significant first.
pub open spec fn digits_of(x: int, base: int, k: nat) -> Seq<u8>
    decreases k,
{
    if k == 0 {
        seq![]
    } else {
        digits_of(x / base, base, (k - 1) as nat).push((x % base) as u8)
    }
}

/// Number of characters that encode `n` bytes.
pub open spec fn text_len(n: nat) -> nat {
    (8 * n + 4) / 5
}

/// Factor that pads a chunk of `m` bytes to a multiple of five bits.
pub open spec fn pad_factor(m: nat) -> int {
    if m == 1 {
        4
    } else if m == 2 {
        16
    } else if m == 3 {
        2
    } else if m == 4 {
        8
    } else {
        1
    }
}

/// The digits (each below 32) that encode one chunk of one to five bytes.
pub open spec fn chunk_digits(c: Seq<u8>) -> Seq<u8> {
    digits_of(digits_value(c, 256) * pad_factor(c.len()), 32, text_len(c.len()))
}

/// The digits that encode `b`, chunk by chunk.
pub open spec fn text_digits(b: Seq<u8>) -> Seq<u8>
    decreases b.len(),
{
    if b.len() <= 5 {
        chunk_digits(b)
    } else {
        chunk_digits(b.take(5)) + text_digits(b.skip(5))
    }
}

/// The bytes of a chunk of `m` bytes, from the digits that encode it.
pub open spec fn chunk_bytes(ds: Seq<u8>, m: nat) -> Seq<u8> {
    digits_of(digits_value(ds, 32) / pad_factor(m), 256, m)
}

/// The `n` bytes that the digits `ds` encode, chunk by chunk.
pub open spec fn bytes_of_digits(ds: Seq<u8>, n: nat) -> Seq<u8>
    decreases n,
{
    if n <= 5 {
        chunk_bytes(ds.take(text_len(n) as int), n)
    } else {
        chunk_bytes(ds.take(8), 5) + bytes_of_digits(ds.skip(8), (n - 5) as nat)
    }
}

/// The character that stands for the digit `d` (below 32).
pub open spec fn alphabet(d: u8) -> char {
    if d < 10 {
        if d == 0 { '0' } else if d == 1 { '1' } else if d == 2 { '2' } else if d == 3 { '3' }
        else if d == 4 { '4' } else if d == 5 { '5' } else if d == 6 { '6' } else if d == 7 { '7' }
        else if d == 8 { '8' } else { '9' }
    } else if d < 20 {
        if d == 10 { 'A' } else if d == 11 { 'B' } else if d == 12 { 'C' } else if d == 13 { 'D' }
        else if d == 14 { 'E' } else if d == 15 { 'F' } else if d == 16 { 'G' } else if d == 17 { 'H' }
        else if d == 18 { 'J' } else { 'K' }
    } else {
        if d == 20 { 'M' } else if d == 21 { 'N' } else if d == 22 { 'P' } else if d == 23 { 'Q' }
        else if d == 24 { 'R' } else if d == 25 { 'S' } else if d == 26 { 'T' } else if d == 27 { 'V' }
        else if d == 28 { 'W' } else if d == 29 { 'X' } else if d == 30 { 'Y' } else { 'Z' }
    }
}

/// Whether `c` belongs to the alphabet.
pub open spec fn is_digit_char(c: char) -> bool {
    exists|d: u8| d < 32 && alphabet(d) == c
}

/// The digit that the character `c` of the alphabet stands for.
pub open spec fn digit_of_char(c: char) -> u8 {
    choose|d: u8| d < 32 && alphabet(d) == c
}

/// The text that encodes `b`.
pub open spec fn encode_text(b: Seq<u8>) -> Seq<char> {
    text_digits(b).map_values(|d: u8| alphabet(d))
}

/// The `n` bytes that the text `s` encodes, if it is well formed: of the length
/// that encodes `n` bytes, and made of characters of the alphabet only.
pub open spec fn decode_text(s: Seq<char>, n: nat) -> Option<Seq<u8>> {
    if s.len() == text_len(n) && forall|i: int| 0 <= i < s.len() ==> is_digit_char(#[trigger] s[i]) {
        Some(bytes_of_digits(s.map_values(|c: char| digit_of_char(c)), n))
    } else {
        None
    }
}


proof fn lemma_radix_pow_grows(base: int, i: nat, j: nat)
    requires
        base >= 1,
        i <= j,
    ensures
        1 <= radix_pow(base, i) <= radix_pow(base, j),
    decreases j,
{
    if j > i {
        lemma_radix_pow_grows(base, i, (j - 1) as nat);
        let p = radix_pow(base, (j - 1) as nat);
        assert(p <= p * base) by (nonlinear_arith)
            requires p >= 1, base >= 1;
    } else {
        lemma_radix_pow_positive(base, j);
    }
}

proof fn lemma_radix_pow_positive(base: int, k: nat)
    requires
        base >= 1,
    ensures
        radix_pow(base, k) >= 1,
    decreases k,
{
    if k > 0 {
        lemma_radix_pow_positive(base, (k - 1) as nat);
        let p = radix_pow(base, (k - 1) as nat);
        assert(p * base >= 1) by (nonlinear_arith)
            requires p >= 1, base >= 1;
    }
}

proof fn lemma_digits_of_shape(x: int, base: int, k: nat)
    requires
        2 <= base <= 256,
    ensures
        digits_of(x, base, k).len() == k,
        forall|i: int| 0 <= i < k ==> (#[trigger] digits_of(x, base, k)[i]) < base,
    decreases k,
{
    if k > 0 {
        lemma_digits_of_shape(x / base, base, (k - 1) as nat);
        let m = x % base;
        assert(0 <= m < base);
        assert(((x % base) as u8) as int == m);
    }
}

proof fn lemma_value_of_digits(x: int, base: int, k: nat)
    requires
        2 <= base <= 256,
        0 <= x < radix_pow(base, k),
    ensures
        digits_value(digits_of(x, base, k), base) == x,
    decreases k,
{
    if k > 0 {
        let p = radix_pow(base, (k - 1) as nat);
        let q = x / base;
        let r = x % base;
        assert(x == base * q + r && 0 <= r < base) by (nonlinear_arith)
            requires base > 0, q == x / base, r == x % base;
        assert(0 <= q < p) by (nonlinear_arith)
            requires x == base * q + r, 0 <= r < base, x < p * base, x >= 0;
        lemma_value_of_digits(q, base, (k - 1) as nat);
        let d = digits_of(x, base, k);
        assert(d.drop_last() == digits_of(q, base, (k - 1) as nat));
        assert(d.last() as int == r);
        assert(digits_value(d, base) == digits_value(d.drop_last(), base) * base + d.last() as int);
        assert(q * base + r == x) by (nonlinear_arith)
            requires x == base * q + r;
    }
}

proof fn lemma_digits_value_bound(s: Seq<u8>, base: int)
    requires
        2 <= base <= 256,
        forall|i: int| 0 <= i < s.len() ==> (#[trigger] s[i]) < base,
    ensures
        0 <= digits_value(s, base) < radix_pow(base, s.len()),
    decreases s.len(),
{
    if s.len() > 0 {
        let t = s.drop_last();
        assert forall|i: int| 0 <= i < t.len() implies (#[trigger] t[i]) < base by {
            assert(t[i] == s[i]);
        }
        lemma_digits_value_bound(t, base);
        let v = digits_value(t, base);
        let p = radix_pow(base, t.len());
        let l = s.last() as int;
        assert(s.last() == s[s.len() - 1]);
        assert(0 <= v * base + l < p * base) by (nonlinear_arith)
            requires 0 <= v < p, 0 <= l < base, base >= 2;
    }
}

proof fn lemma_digits_of_value(s: Seq<u8>, base: int)
    requires
        2 <= base <= 256,
        forall|i: int| 0 <= i < s.len() ==> (#[trigger] s[i]) < base,
    ensures
        digits_of(digits_value(s, base), base, s.len()) == s,
    decreases s.len(),
{
    if s.len() > 0 {
        let t = s.drop_last();
        assert forall|i: int| 0 <= i < t.len() implies (#[trigger] t[i]) < base by {
            assert(t[i] == s[i]);
        }
        lemma_digits_of_value(t, base);
        lemma_digits_value_bound(t, base);
        let v = digits_value(t, base);
        let l = s.last() as int;
        assert(s.last() == s[s.len() - 1]);
        let x = v * base + l;
        assert(x / base == v && x % base == l) by (nonlinear_arith)
            requires x == v * base + l, 0 <= l < base, v >= 0, base >= 2;
        assert(digits_of(x, base, s.len()) == t.push(s.last()));
        assert(t.push(s.last()) == s);
    }
}

proof fn lemma_pad_fits(m: nat)
    requires
        m <= 5,
    ensures
        pad_factor(m) >= 1,
        radix_pow(256, m) * pad_factor(m) == radix_pow(32, text_len(m)),
{
    reveal_with_fuel(radix_pow, 9);
}

proof fn lemma_chunk_round_trip(c: Seq<u8>)
    requires
        c.len() <= 5,
    ensures
        chunk_digits(c).len() == text_len(c.len()),
        forall|i: int| 0 <= i < chunk_digits(c).len() ==> (#[trigger] chunk_digits(c)[i]) < 32,
        chunk_bytes(chunk_digits(c), c.len()) == c,
{
    let m = c.len();
    let f = pad_factor(m);
    let v = digits_value(c, 256);
    lemma_pad_fits(m);
    lemma_digits_value_bound(c, 256);
    let x = v * f;
    let p = radix_pow(256, m);
    assert(0 <= x < radix_pow(32, text_len(m))) by (nonlinear_arith)
        requires x == v * f, 0 <= v < p, f >= 1, p * f == radix_pow(32, text_len(m));
    lemma_digits_of_shape(x, 32, text_len(m));
    lemma_value_of_digits(x, 32, text_len(m));
    assert(x / f == v) by (nonlinear_arith)
        requires x == v * f, f >= 1;
    lemma_digits_of_value(c, 256);
}

proof fn lemma_text_round_trip(b: Seq<u8>)
    ensures
        text_digits(b).len() == text_len(b.len()),
        forall|i: int| 0 <= i < text_digits(b).len() ==> (#[trigger] text_digits(b)[i]) < 32,
        bytes_of_digits(text_digits(b), b.len()) == b,
    decreases b.len(),
{
    if b.len() <= 5 {
        lemma_chunk_round_trip(b);
        assert(text_digits(b).take(text_len(b.len()) as int) == text_digits(b));
    } else {
        let h = b.take(5);
        let t = b.skip(5);
        lemma_chunk_round_trip(h);
        lemma_text_round_trip(t);
        let d = text_digits(b);
        assert(d == chunk_digits(h) + text_digits(t));
        assert(d.take(8) == chunk_digits(h));
        assert(d.skip(8) == text_digits(t));
        assert(bytes_of_digits(d, b.len()) == h + t);
        assert(h + t == b);
        assert forall|i: int| 0 <= i < d.len() implies (#[trigger] d[i]) < 32 by {
            if i < 8 {
                assert(d[i] == chunk_digits(h)[i]);
            } else {
                assert(d[i] == text_digits(t)[i - 8]);
            }
        }
    }
}

proof fn lemma_alphabet_inverse(d: u8)
    requires
        d < 32,
    ensures
        is_digit_char(alphabet(d)),
        digit_of_char(alphabet(d)) == d,
{
    assert(is_digit_char(alphabet(d)));
    let e = digit_of_char(alphabet(d));
    assert(e < 32 && alphabet(e) == alphabet(d));
}

/// Decoding the text of any byte sequence gives back that byte sequence, and the
/// text has the length that encodes that many bytes.
pub proof fn lemma_decode_encode(b: Seq<u8>)
    ensures
        encode_text(b).len() == text_len(b.len()),
        decode_text(encode_text(b), b.len()) == Some(b),
{
    lemma_text_round_trip(b);
    let d = text_digits(b);
    let s = encode_text(b);
    assert forall|i: int| 0 <= i < s.len() implies is_digit_char(#[trigger] s[i]) by {
        lemma_alphabet_inverse(d[i]);
    }
    let back = s.map_values(|c: char| digit_of_char(c));
    assert(back =~= d) by {
        assert forall|i: int| 0 <= i < d.len() implies back[i] == d[i] by {
            lemma_alphabet_inverse(d[i]);
        }
    }
}


/// Relies on `String: FromIterator<char>`: collecting characters keeps them, in order.
#[verifier::external_body]
pub(crate) fn string_from_chars(chars: &Vec<char>) -> (r: String)
    ensures
        r@ == chars@,
{
    chars.iter().collect()
}

pub(crate) fn alphabet_char(d: u8) -> (c: char)
    requires
        d < 32,
    ensures
        c == alphabet(d),
{
    match d {
        0 => '0',
        1 => '1',
        2 => '2',
        3 => '3',
        4 => '4',
        5 => '5',
        6 => '6',
        7 => '7',
        8 => '8',
        9 => '9',
        10 => 'A',
        11 => 'B',
        12 => 'C',
        13 => 'D',
        14 => 'E',
        15 => 'F',
        16 => 'G',
        17 => 'H',
        18 => 'J',
        19 => 'K',
        20 => 'M',
        21 => 'N',
        22 => 'P',
        23 => 'Q',
        24 => 'R',
        25 => 'S',
        26 => 'T',
        27 => 'V',
        28 => 'W',
        29 => 'X',
        30 => 'Y',
        _ => 'Z',
    }
}

fn char_digit(c: char) -> (r: Option<u8>)
    ensures
        r matches Some(d) ==> d < 32 && alphabet(d) == c && digit_of_char(c) == d,
        r is None ==> !is_digit_char(c),
{
    let r = match c {
        '0' => Some(0),
        '1' => Some(1),
        '2' => Some(2),
        '3' => Some(3),
        '4' => Some(4),
        '5' => Some(5),
        '6' => Some(6),
        '7' => Some(7),
        '8' => Some(8),
        '9' => Some(9),
        'A' => Some(10),
        'B' => Some(11),
        'C' => Some(12),
        'D' => Some(13),
        'E' => Some(14),
        'F' => Some(15),
        'G' => Some(16),
        'H' => Some(17),
        'J' => Some(18),
        'K' => Some(19),
        'M' => Some(20),
        'N' => Some(21),
        'P' => Some(22),
        'Q' => Some(23),
        'R' => Some(24),
        'S' => Some(25),
        'T' => Some(26),
        'V' => Some(27),
        'W' => Some(28),
        'X' => Some(29),
        'Y' => Some(30),
        'Z' => Some(31),
        _ => None,
    };
    proof {
        if let Some(d) = r {
            lemma_alphabet_inverse(d);
        }
    }
    r
}

fn pad_factor_exec(m: usize) -> (r: u64)
    ensures
        r == pad_factor(m as nat),
{
    if m == 1 {
        4
    } else if m == 2 {
        16
    } else if m == 3 {
        2
    } else if m == 4 {
        8
    } else {
        1
    }
}

/// Appends the `k` lowest digits of `x` in radix `base` to `out`.
fn push_digits(x: u64, base: u64, k: usize, out: &mut Vec<u8>)
    requires
        2 <= base <= 256,
    ensures
        final(out)@ == old(out)@ + digits_of(x as int, base as int, k as nat),
    decreases k,
{
    if k > 0 {
        push_digits(x / base, base, k - 1, out);
        out.push((x % base) as u8);
        proof {
            let ghost d = digits_of((x / base) as int, base as int, (k - 1) as nat);
            assert(digits_of(x as int, base as int, k as nat) == d.push((x % base) as u8));
            assert(out@ =~= old(out)@ + digits_of(x as int, base as int, k as nat));
        }
    }
}

/// The big-endian value of the `len` digits of `s` that start at `start`.
fn digits_value_exec(s: &Vec<u8>, start: usize, len: usize, base: u64) -> (r: u64)
    requires
        2 <= base <= 256,
        start + len <= s@.len(),
        radix_pow(base as int, len as nat) <= 0x100_0000_0000,
        forall|i: int| start <= i < start + len ==> (#[trigger] s@[i]) < base,
    ensures
        r == digits_value(s@.subrange(start as int, start + len), base as int),
{
    let total = s.len();
    let mut acc: u64 = 0;
    let mut i: usize = 0;
    while i < len
        invariant
            total == s@.len(),
            2 <= base <= 256,
            start + len <= s@.len(),
            radix_pow(base as int, len as nat) <= 0x100_0000_0000,
            forall|j: int| start <= j < start + len ==> (#[trigger] s@[j]) < base,
            i <= len,
            acc == digits_value(s@.subrange(start as int, start + i), base as int),
            acc < radix_pow(base as int, i as nat),
        decreases len - i,
    {
        let ghost prev = s@.subrange(start as int, start + i);
        let ghost next = s@.subrange(start as int, start + i + 1);
        proof {
            assert(next.drop_last() == prev);
            assert(next.last() == s@[start + i]);
            lemma_radix_pow_grows(base as int, (i + 1) as nat, len as nat);
            let p = radix_pow(base as int, i as nat);
            let d = s@[start + i] as int;
            assert(acc * base + d < p * base) by (nonlinear_arith)
                requires acc < p, d < base, acc >= 0;
        }
        acc = acc * base + s[start + i] as u64;
        i = i + 1;
        proof {
            assert forall|j: int| 0 <= j < next.len() implies (#[trigger] next[j]) < base by {
                assert(next[j] == s@[start + j]);
            }
            lemma_digits_value_bound(next, base as int);
        }
    }
    acc
}

/// The text that encodes `data`.
pub fn encode(data: &Vec<u8>) -> (r: String)
    ensures
        r@ == encode_text(data@),
{
    let mut digits: Vec<u8> = Vec::new();
    let mut pos: usize = 0;
    assert(data@.skip(0) == data@);
    while pos < data.len()
        invariant
            pos <= data@.len(),
            text_digits(data@) == digits@ + text_digits(data@.skip(pos as int)),
        decreases data@.len() - pos,
    {
        let rest_len = data.len() - pos;
        let m: usize = if rest_len <= 5 { rest_len } else { 5 };
        let ghost rest = data@.skip(pos as int);
        proof {
            lemma_radix_pow_grows(256, m as nat, 5);
            reveal_with_fuel(radix_pow, 6);
            assert(radix_pow(256, 5) == 0x100_0000_0000);
            assert(rest.take(m as int) == data@.subrange(pos as int, pos + m));
            if rest_len > 5 {
                assert(rest.skip(5) == data@.skip(pos + 5));
            } else {
                assert(rest.take(m as int) == rest);
            }
        }
        let v = digits_value_exec(data, pos, m, 256);
        proof {
            lemma_digits_value_bound(data@.subrange(pos as int, pos + m), 256);
        }
        let text_chars: usize = (8 * m + 4) / 5;
        let f = pad_factor_exec(m);
        assert(v < 0x100_0000_0000 && f <= 16);
        assert(v * f <= 0x100_0000_0000 * 16) by (nonlinear_arith)
            requires v < 0x100_0000_0000, f <= 16;
        push_digits(v * f, 32, text_chars, &mut digits);
        pos = pos + m;
    }
    proof {
        let e = data@.skip(pos as int);
        assert(e.len() == 0);
        assert(text_digits(e) =~= seq![]);
        assert(digits@ + text_digits(e) =~= digits@);
        lemma_text_round_trip(data@);
    }
    let mut chars: Vec<char> = Vec::new();
    let mut i: usize = 0;
    while i < digits.len()
        invariant
            i <= digits@.len(),
            digits@ == text_digits(data@),
            forall|j: int| 0 <= j < digits@.len() ==> (#[trigger] digits@[j]) < 32,
            chars@ == digits@.take(i as int).map_values(|d: u8| alphabet(d)),
        decreases digits@.len() - i,
    {
        let c = alphabet_char(digits[i]);
        chars.push(c);
        i = i + 1;
        proof {
            assert(chars@ =~= digits@.take(i as int).map_values(|d: u8| alphabet(d)));
        }
    }
    proof {
        assert(digits@.take(i as int) == digits@);
    }
    string_from_chars(&chars)
}


/// What a well-formed text decodes to has the requested length.
pub proof fn lemma_decode_len(s: Seq<char>, n: nat)
    ensures
        decode_text(s, n) matches Some(b) ==> b.len() == n,
{
    if decode_text(s, n) is Some {
        lemma_bytes_of_digits_len(s.map_values(|c: char| digit_of_char(c)), n);
    }
}

proof fn lemma_bytes_of_digits_len(ds: Seq<u8>, n: nat)
    ensures
        bytes_of_digits(ds, n).len() == n,
    decreases n,
{
    if n <= 5 {
        lemma_digits_of_shape(digits_value(ds.take(text_len(n) as int), 32) / pad_factor(n), 256, n);
    } else {
        lemma_digits_of_shape(digits_value(ds.take(8), 32) / pad_factor(5), 256, 5);
        lemma_bytes_of_digits_len(ds.skip(8), (n - 5) as nat);
    }
}

/// The `n` bytes that the text `s` encodes, or `None` where `s` does not have the
/// length that encodes `n` bytes or holds a character outside the alphabet.
pub fn decode(s: &str, n: usize) -> (r: Option<Vec<u8>>)
    requires
        n <= 0x1000_0000,
    ensures
        match r {
            Some(v) => decode_text(s@, n as nat) == Some(v@),
            None => decode_text(s@, n as nat) is None,
        },
{
    let len = s.unicode_len();
    let expected: usize = (8 * n + 4) / 5;
    if len != expected {
        return None;
    }
    let mut digits: Vec<u8> = Vec::new();
    let mut i: usize = 0;
    while i < len
        invariant
            len == s@.len(),
            i <= len,
            digits@ == s@.take(i as int).map_values(|c: char| digit_of_char(c)),
            forall|j: int| 0 <= j < i ==> is_digit_char(#[trigger] s@[j]),
            forall|j: int| 0 <= j < i ==> (#[trigger] digits@[j]) < 32,
        decreases len - i,
    {
        let c = s.get_char(i);
        match char_digit(c) {
            None => {
                return None;
            },
            Some(d) => {
                digits.push(d);
            },
        }
        i = i + 1;
        proof {
            assert(digits@ =~= s@.take(i as int).map_values(|c: char| digit_of_char(c)));
        }
    }
    let ghost ds = s@.map_values(|c: char| digit_of_char(c));
    assert(digits@ == ds) by {
        assert(s@.take(i as int) == s@);
    }
    let mut out: Vec<u8> = Vec::new();
    let mut pos: usize = 0;
    let mut rem: usize = n;
    assert(ds.skip(0) == ds);
    while rem > 5
        invariant
            digits@ == ds,
            digits@.len() == len,
            forall|j: int| 0 <= j < digits@.len() ==> (#[trigger] digits@[j]) < 32,
            pos + text_len(rem as nat) == digits@.len(),
            bytes_of_digits(ds, n as nat) == out@ + bytes_of_digits(ds.skip(pos as int), rem as nat),
        decreases rem,
    {
        proof {
            reveal_with_fuel(radix_pow, 9);
            assert(ds.skip(pos as int).take(8) == ds.subrange(pos as int, pos + 8));
            assert(ds.skip(pos as int).skip(8) == ds.skip(pos + 8));
        }
        let w = digits_value_exec(&digits, pos, 8, 32);
        proof {
            lemma_digits_value_bound(ds.subrange(pos as int, pos + 8), 32);
        }
        let ghost before = out@;
        push_digits(w, 256, 5, &mut out);
        proof {
            let rest = ds.skip(pos as int);
            assert(bytes_of_digits(rest, rem as nat) == chunk_bytes(rest.take(8), 5) + bytes_of_digits(rest.skip(8), (rem - 5) as nat));
            assert(chunk_bytes(rest.take(8), 5) == digits_of(w as int, 256, 5));
            assert(out@ + bytes_of_digits(ds.skip(pos + 8), (rem - 5) as nat)
                =~= before + bytes_of_digits(rest, rem as nat));
        }
        pos = pos + 8;
        rem = rem - 5;
    }
    let k: usize = (8 * rem + 4) / 5;
    proof {
        reveal_with_fuel(radix_pow, 9);
        lemma_radix_pow_grows(32, k as nat, 8);
        assert(ds.skip(pos as int).take(k as int) == ds.subrange(pos as int, pos + k));
    }
    let w = digits_value_exec(&digits, pos, k, 32);
    let f = pad_factor_exec(rem);
    push_digits(w / f, 256, rem, &mut out);
    Some(out)
}

} // verus!
