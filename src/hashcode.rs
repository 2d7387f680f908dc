//! 512-bit content hashes: hashing, text form, group arithmetic, ordering and the
//! XOR metric.
use vstd::prelude::*;
use sha2::Digest;
use crate::codec::{decode, decode_text, encode, encode_text, lemma_decode_encode, text_len};

verus! {

/// Number of bytes in a hash.
pub const HASH_LEN: usize = 64;

/// The digest that the hash function gives for `b`.
pub uninterp spec fn sha512_of(b: Seq<u8>) -> Seq<u8>;

/// Relies on `sha2::Sha512::digest`: the digest is 64 bytes and depends on the
/// input bytes alone.
#[verifier::external_body]
fn sha512(buf: &[u8]) -> (r: Vec<u8>)
    ensures
        r@ == sha512_of(buf@),
        r@.len() == 64,
{
    sha2::Sha512::digest(buf).to_vec()
}

/// Byte-wise sum modulo 256.
pub open spec fn bytes_add(a: Seq<u8>, b: Seq<u8>) -> Seq<u8> {
    Seq::new(a.len(), |i: int| ((a[i] as int + b[i] as int) % 256) as u8)
}

/// Byte-wise difference `a - b` modulo 256.
pub open spec fn bytes_sub(a: Seq<u8>, b: Seq<u8>) -> Seq<u8> {
    Seq::new(a.len(), |i: int| ((a[i] as int - b[i] as int + 256) % 256) as u8)
}

/// Byte-wise exclusive or.
pub open spec fn bytes_xor(a: Seq<u8>, b: Seq<u8>) -> Seq<u8> {
    Seq::new(a.len(), |i: int| a[i] ^ b[i])
}

/// Whether `a` comes before `b` in lexicographic (big-endian) order.
pub open spec fn lex_less(a: Seq<u8>, b: Seq<u8>) -> bool {
    exists|k: int|
        0 <= k < a.len() && k < b.len() && a[k] < b[k] && forall|j: int| 0 <= j < k ==> a[j] == b[j]
}

/// Lexicographic comparison of two byte sequences of equal length.
pub open spec fn lex_cmp(a: Seq<u8>, b: Seq<u8>) -> std::cmp::Ordering {
    if lex_less(a, b) {
        std::cmp::Ordering::Less
    } else if lex_less(b, a) {
        std::cmp::Ordering::Greater
    } else {
        std::cmp::Ordering::Equal
    }
}

/// The four leading bytes of `s` read as a big-endian number.
pub open spec fn leading_word(s: Seq<u8>) -> int {
    s[0] as int * 0x100_0000 + s[1] as int * 0x1_0000 + s[2] as int * 0x100 + s[3] as int
}

/// The distance of `a` and `b`: the leading 32 bits of their exclusive or.
pub open spec fn xor_distance(a: Seq<u8>, b: Seq<u8>) -> int {
    leading_word(bytes_xor(a, b))
}

/// Bit `i` of `s`, counting from the most significant bit of the first byte.
pub open spec fn bit_at(s: Seq<u8>, i: int) -> bool {
    (s[i / 8] >> (7 - i % 8) as u8) & 1 == 1
}

/// A 512-bit hash.
#[derive(Clone, Debug, Hash)]
pub struct HashCode {
    data: Vec<u8>,
}

impl View for HashCode {
    type V = Seq<u8>;

    closed spec fn view(&self) -> Seq<u8> {
        self.data@
    }
}

/// The error of reading a hash from text that does not encode one.
#[derive(Debug, PartialEq, Eq, Structural)]
pub struct HashCodeFromStrError;

impl HashCode {
    /// Whether the hash holds exactly `HASH_LEN` bytes.
    pub open spec fn wf(&self) -> bool {
        self@.len() == HASH_LEN
    }

    /// The hash of `buf`.
    pub fn hash(buf: &[u8]) -> (r: HashCode)
        ensures
            r.wf(),
            r@ == sha512_of(buf@),
    {
        HashCode { data: sha512(buf) }
    }

    /// The hash whose bytes are `random_bytes`, drawn by the caller from a source
    /// of randomness.
    pub fn rand(random_bytes: &Vec<u8>) -> (r: HashCode)
        requires
            random_bytes@.len() == HASH_LEN,
        ensures
            r.wf(),
            r@ == random_bytes@,
    {
        HashCode { data: random_bytes.clone() }
    }

    /// The bytes of the hash.
    pub fn as_bytes(&self) -> (r: &Vec<u8>)
        ensures
            r@ == self@,
    {
        &self.data
    }

    /// The distance of `self` and `other` under the XOR metric.
    pub fn distance(&self, other: &HashCode) -> (r: u32)
        requires
            self.wf(),
            other.wf(),
        ensures
            r as int == xor_distance(self@, other@),
    {
        let x0 = (self.data[0] ^ other.data[0]) as u32;
        let x1 = (self.data[1] ^ other.data[1]) as u32;
        let x2 = (self.data[2] ^ other.data[2]) as u32;
        let x3 = (self.data[3] ^ other.data[3]) as u32;
        x0 * 0x100_0000 + x1 * 0x1_0000 + x2 * 0x100 + x3
    }

    /// Bit `idx` of the hash, counting from the most significant bit of its first
    /// byte.
    pub fn get_bit(&self, idx: usize) -> (r: bool)
        requires
            self.wf(),
            idx < 8 * HASH_LEN,
        ensures
            r == bit_at(self@, idx as int),
    {
        (self.data[idx / 8] >> (7 - idx % 8) as u8) & 1 == 1
    }

    /// Number of leading bits that `self` and `other` have in common.
    pub fn matching_prefix_len(&self, other: &HashCode) -> (r: usize)
        requires
            self.wf(),
            other.wf(),
        ensures
            r <= 8 * HASH_LEN,
            forall|i: int| 0 <= i < r ==> bit_at(self@, i) == bit_at(other@, i),
            r < 8 * HASH_LEN ==> bit_at(self@, r as int) != bit_at(other@, r as int),
    {
        let mut i: usize = 0;
        while i < 8 * HASH_LEN
            invariant
                self.wf(),
                other.wf(),
                i <= 8 * HASH_LEN,
                forall|j: int| 0 <= j < i ==> bit_at(self@, j) == bit_at(other@, j),
            decreases 8 * HASH_LEN - i,
        {
            if self.get_bit(i) != other.get_bit(i) {
                return i;
            }
            i = i + 1;
        }
        i
    }

    /// Compares `h1` and `h2` by their XOR distance to `self`: `Less` where `h1`
    /// is the closer one.
    pub fn xor_cmp(&self, h1: &HashCode, h2: &HashCode) -> (r: std::cmp::Ordering)
        requires
            self.wf(),
            h1.wf(),
            h2.wf(),
        ensures
            r == lex_cmp(bytes_xor(self@, h1@), bytes_xor(self@, h2@)),
    {
        let x1 = self.bitxor(h1);
        let x2 = self.bitxor(h2);
        x1.cmp(&x2)
    }

    /// Lexicographic comparison of the bytes of the two hashes.
    pub fn cmp(&self, other: &HashCode) -> (r: std::cmp::Ordering)
        requires
            self.wf(),
            other.wf(),
        ensures
            r == lex_cmp(self@, other@),
    {
        let mut i: usize = 0;
        while i < HASH_LEN
            invariant
                self.wf(),
                other.wf(),
                i <= HASH_LEN,
                forall|j: int| 0 <= j < i ==> self@[j] == other@[j],
            decreases HASH_LEN - i,
        {
            if self.data[i] < other.data[i] {
                assert(lex_less(self@, other@));
                assert(!lex_less(other@, self@)) by {
                    if lex_less(other@, self@) {
                        let k = choose|k: int|
                            0 <= k < other@.len() && k < self@.len() && other@[k] < self@[k]
                                && forall|j: int| 0 <= j < k ==> other@[j] == self@[j];
                        assert(k != i as int);
                    }
                }
                return std::cmp::Ordering::Less;
            }
            if self.data[i] > other.data[i] {
                assert(lex_less(other@, self@));
                assert(!lex_less(self@, other@)) by {
                    if lex_less(self@, other@) {
                        let k = choose|k: int|
                            0 <= k < self@.len() && k < other@.len() && self@[k] < other@[k]
                                && forall|j: int| 0 <= j < k ==> self@[j] == other@[j];
                        assert(k != i as int);
                    }
                }
                return std::cmp::Ordering::Greater;
            }
            i = i + 1;
        }
        std::cmp::Ordering::Equal
    }

    /// The byte-wise sum of `self` and `rhs`, modulo 256.
    pub fn add(&self, rhs: &HashCode) -> (r: HashCode)
        requires
            self.wf(),
            rhs.wf(),
        ensures
            r.wf(),
            r@ == bytes_add(self@, rhs@),
    {
        let mut out: Vec<u8> = Vec::new();
        let mut i: usize = 0;
        while i < HASH_LEN
            invariant
                self.wf(),
                rhs.wf(),
                i <= HASH_LEN,
                out@ == bytes_add(self@, rhs@).take(i as int),
            decreases HASH_LEN - i,
        {
            out.push(((self.data[i] as u16 + rhs.data[i] as u16) % 256) as u8);
            i = i + 1;
            assert(out@ =~= bytes_add(self@, rhs@).take(i as int));
        }
        assert(bytes_add(self@, rhs@).take(i as int) =~= bytes_add(self@, rhs@));
        HashCode { data: out }
    }

    /// The byte-wise difference `self - rhs`, modulo 256.
    pub fn sub(&self, rhs: &HashCode) -> (r: HashCode)
        requires
            self.wf(),
            rhs.wf(),
        ensures
            r.wf(),
            r@ == bytes_sub(self@, rhs@),
    {
        let mut out: Vec<u8> = Vec::new();
        let mut i: usize = 0;
        while i < HASH_LEN
            invariant
                self.wf(),
                rhs.wf(),
                i <= HASH_LEN,
                out@ == bytes_sub(self@, rhs@).take(i as int),
            decreases HASH_LEN - i,
        {
            out.push(((self.data[i] as u16 + 256 - rhs.data[i] as u16) % 256) as u8);
            i = i + 1;
            assert(out@ =~= bytes_sub(self@, rhs@).take(i as int));
        }
        assert(bytes_sub(self@, rhs@).take(i as int) =~= bytes_sub(self@, rhs@));
        HashCode { data: out }
    }

    /// The byte-wise exclusive or of `self` and `rhs`.
    pub fn bitxor(&self, rhs: &HashCode) -> (r: HashCode)
        requires
            self.wf(),
            rhs.wf(),
        ensures
            r.wf(),
            r@ == bytes_xor(self@, rhs@),
    {
        let mut out: Vec<u8> = Vec::new();
        let mut i: usize = 0;
        while i < HASH_LEN
            invariant
                self.wf(),
                rhs.wf(),
                i <= HASH_LEN,
                out@ == bytes_xor(self@, rhs@).take(i as int),
            decreases HASH_LEN - i,
        {
            out.push(self.data[i] ^ rhs.data[i]);
            i = i + 1;
            assert(out@ =~= bytes_xor(self@, rhs@).take(i as int));
        }
        assert(bytes_xor(self@, rhs@).take(i as int) =~= bytes_xor(self@, rhs@));
        HashCode { data: out }
    }

    /// The text form of the hash.
    pub fn to_string(&self) -> (r: String)
        requires
            self.wf(),
        ensures
            r@ == encode_text(self@),
            r@.len() == text_len(HASH_LEN as nat),
    {
        proof {
            lemma_decode_encode(self@);
        }
        encode(&self.data)
    }

    /// Reads a hash from its text form.
    pub fn from_str(s: &str) -> (r: Result<HashCode, HashCodeFromStrError>)
        ensures
            match r {
                Ok(h) => h.wf() && decode_text(s@, HASH_LEN as nat) == Some(h@),
                Err(_) => decode_text(s@, HASH_LEN as nat) is None,
            },
    {
        match decode(s, HASH_LEN) {
            Some(data) => {
                proof {
                    crate::codec::lemma_decode_len(s@, HASH_LEN as nat);
                }
                Ok(HashCode { data })
            },
            None => Err(HashCodeFromStrError),
        }
    }
}

/// Hashing is deterministic: equal inputs have equal hashes.
pub proof fn lemma_hash_deterministic(a: Seq<u8>, b: Seq<u8>)
    requires
        a == b,
    ensures
        sha512_of(a) == sha512_of(b),
{
}

/// Adding and subtracting undo each other: `(a + b) - a == b` and
/// `a + (b - a) == b`.
pub proof fn lemma_add_sub(a: Seq<u8>, b: Seq<u8>)
    requires
        a.len() == HASH_LEN,
        b.len() == HASH_LEN,
    ensures
        bytes_sub(bytes_add(a, b), a) == b,
        bytes_add(a, bytes_sub(b, a)) == b,
{
    assert(bytes_sub(bytes_add(a, b), a) =~= b);
    assert(bytes_add(a, bytes_sub(b, a)) =~= b);
}

/// Reading the text form of a hash gives back the hash, and the text form has the
/// fixed length for 64 bytes.
pub proof fn lemma_text_round_trip(x: HashCode)
    requires
        x.wf(),
    ensures
        decode_text(encode_text(x@), HASH_LEN as nat) == Some(x@),
        encode_text(x@).len() == text_len(HASH_LEN as nat),
        text_len(HASH_LEN as nat) == 103,
{
    lemma_decode_encode(x@);
}

proof fn lemma_xor_commutes(a: Seq<u8>, b: Seq<u8>)
    requires
        a.len() == b.len(),
    ensures
        bytes_xor(a, b) == bytes_xor(b, a),
{
    assert forall|i: int| 0 <= i < a.len() implies bytes_xor(a, b)[i] == bytes_xor(b, a)[i] by {
        let x = a[i];
        let y = b[i];
        assert(x ^ y == y ^ x) by (bit_vector);
    }
    assert(bytes_xor(a, b) =~= bytes_xor(b, a));
}

/// The XOR distance is symmetric, and zero from a hash to itself.
pub proof fn lemma_distance_symmetric(a: Seq<u8>, b: Seq<u8>)
    requires
        a.len() == HASH_LEN,
        b.len() == HASH_LEN,
    ensures
        xor_distance(a, b) == xor_distance(b, a),
        xor_distance(a, a) == 0,
{
    lemma_xor_commutes(a, b);
    assert forall|i: int| 0 <= i < 4 implies bytes_xor(a, a)[i] == 0 by {
        let x = a[i];
        assert(x ^ x == 0) by (bit_vector);
    }
}

proof fn lemma_leading_word_orders(x: Seq<u8>, y: Seq<u8>)
    requires
        x.len() == HASH_LEN,
        y.len() == HASH_LEN,
        leading_word(x) < leading_word(y),
    ensures
        lex_less(x, y),
        !lex_less(y, x),
{
    let k: int = if x[0] != y[0] {
        0
    } else if x[1] != y[1] {
        1
    } else if x[2] != y[2] {
        2
    } else {
        3
    };
    assert(x[k] < y[k]);
    assert(forall|j: int| 0 <= j < k ==> x[j] == y[j]);
    assert(lex_less(x, y));
    if lex_less(y, x) {
        let m = choose|m: int|
            0 <= m < y.len() && m < x.len() && y[m] < x[m] && forall|j: int| 0 <= j < m ==> y[j] == x[j];
        if m < k {
            assert(y[m] == x[m]);
        } else if m > k {
            assert(y[k] == x[k]);
        }
    }
}

/// Comparing by XOR distance agrees with the distance: where `a` is nearer to the
/// pivot than `b`, `a` comes first, and where it is farther, last.
pub proof fn lemma_xor_cmp_agrees_with_distance(pivot: Seq<u8>, a: Seq<u8>, b: Seq<u8>)
    requires
        pivot.len() == HASH_LEN,
        a.len() == HASH_LEN,
        b.len() == HASH_LEN,
    ensures
        xor_distance(pivot, a) < xor_distance(pivot, b)
            ==> lex_cmp(bytes_xor(pivot, a), bytes_xor(pivot, b)) == std::cmp::Ordering::Less,
        xor_distance(pivot, a) > xor_distance(pivot, b)
            ==> lex_cmp(bytes_xor(pivot, a), bytes_xor(pivot, b)) == std::cmp::Ordering::Greater,
{
    let x = bytes_xor(pivot, a);
    let y = bytes_xor(pivot, b);
    if xor_distance(pivot, a) < xor_distance(pivot, b) {
        lemma_leading_word_orders(x, y);
    }
    if xor_distance(pivot, a) > xor_distance(pivot, b) {
        lemma_leading_word_orders(y, x);
    }
}

impl PartialEq for HashCode {
    fn eq(&self, other: &HashCode) -> (r: bool) {
        if self.data.len() != other.data.len() {
            return false;
        }
        let mut i: usize = 0;
        while i < self.data.len()
            invariant
                self@.len() == other@.len(),
                i <= self@.len(),
                forall|j: int| 0 <= j < i ==> self@[j] == other@[j],
            decreases self@.len() - i,
        {
            if self.data[i] != other.data[i] {
                return false;
            }
            i = i + 1;
        }
        assert(self@ =~= other@);
        true
    }
}

impl vstd::std_specs::cmp::PartialEqSpecImpl for HashCode {
    open spec fn obeys_eq_spec() -> bool {
        true
    }

    open spec fn eq_spec(&self, other: &HashCode) -> bool {
        self@ == other@
    }
}

impl Eq for HashCode {}

} // verus!
