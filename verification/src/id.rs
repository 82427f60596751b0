//! 128-bit identifiers with a pluggable, pure derivation rule.
//!
//! An identifier pairs a 128-bit value with the name of the generator that
//! produces its successor. Lookup and equality go by the numeric value
//! alone; the generator is metadata consulted only when advancing.

use vstd::prelude::*;
use vstd::string::StringExecFns;
use crate::hash::sha512;
use crate::hash::sha512_digest;

verus! {

/// The derivation rules an identifier can carry: each is a pure, total
/// function from the current value to the next one.
#[derive(Clone, Copy, Debug, PartialEq, Eq, Structural)]
pub enum IdGenerator {
    /// The current value plus one, modulo 2^128.
    Increment,
    /// A three-step shift/xor mixing sequence over the full width.
    XorShift64,
    /// Multiply by a fixed odd constant, add a constant, reduce modulo 2^31.
    LinearCongruential,
    /// Hash the 16 big-endian value bytes and keep the first 16 digest bytes.
    Sha512,
}

pub open spec fn increment_spec(v: u128) -> u128 {
    vstd::wrapping::u128_specs::wrapping_add(v, 1)
}

pub open spec fn xor_shift_spec(v: u128) -> u128 {
    let a = v ^ (v << 13u128);
    let b = a ^ (a >> 7u128);
    b ^ (b << 17u128)
}

pub open spec fn linear_congruential_spec(v: u128) -> u128 {
    vstd::wrapping::u128_specs::wrapping_add(
        vstd::wrapping::u128_specs::wrapping_mul(1103515245u128, v),
        12345u128,
    ) % 0x80000000u128
}

/// A 128-bit value rendered as 16 big-endian bytes.
pub open spec fn be16_of(x: u128) -> Seq<u8> {
    Seq::new(16, |i: int| ((x >> ((8 * (15 - i)) as u128)) & 0xff) as u8)
}

/// A 128-bit value read big-endian from a byte sequence.
pub open spec fn u128_of_be(b: Seq<u8>) -> u128
    decreases b.len(),
{
    if b.len() == 0 {
        0u128
    } else {
        (u128_of_be(b.drop_last()) << 8u128) | (b.last() as u128)
    }
}

/// The hash-derived successor: first 16 digest bytes of the hashed value bytes.
pub open spec fn sha512_gen_spec(v: u128) -> u128 {
    u128_of_be(sha512_digest(be16_of(v)).take(16))
}

/// The successor of `v` under generator `g`.
pub open spec fn generator_apply(g: IdGenerator, v: u128) -> u128 {
    match g {
        IdGenerator::Increment => increment_spec(v),
        IdGenerator::XorShift64 => xor_shift_spec(v),
        IdGenerator::LinearCongruential => linear_congruential_spec(v),
        IdGenerator::Sha512 => sha512_gen_spec(v),
    }
}

/// The value reached after advancing `n` times from `v` under `g`.
pub open spec fn advance(g: IdGenerator, v: u128, n: nat) -> u128
    decreases n,
{
    if n == 0 {
        v
    } else {
        generator_apply(g, advance(g, v, (n - 1) as nat))
    }
}

/// The value an identifier built from text carries: the first 16 digest
/// bytes of the hashed UTF-8 encoding.
pub open spec fn text_value(s: Seq<char>) -> u128 {
    u128_of_be(sha512_digest(vstd::utf8::encode_utf8(s)).take(16))
}

/// The value `join` derives: hash this value's 16 big-endian bytes followed
/// by the other's, and keep the first 16 digest bytes.
pub open spec fn join_values(a: u128, b: u128) -> u128 {
    u128_of_be(sha512_digest(be16_of(a) + be16_of(b)).take(16))
}

fn increment(seed: u128) -> (r: u128)
    ensures
        r == increment_spec(seed),
{
    seed.wrapping_add(1)
}

fn xor_shift_64(seed: u128) -> (r: u128)
    ensures
        r == xor_shift_spec(seed),
{
    let mut x = seed;
    x = x ^ (x << 13u128);
    x = x ^ (x >> 7u128);
    x = x ^ (x << 17u128);
    x
}

fn linear_congruential(seed: u128) -> (r: u128)
    ensures
        r == linear_congruential_spec(seed),
{
    let a: u128 = 1103515245;
    let c: u128 = 12345;
    let m: u128 = 0x80000000;
    let x = a.wrapping_mul(seed).wrapping_add(c);
    match x.checked_rem(m) {
        Some(r) => r,
        None => 65537,
    }
}

/// The 16 big-endian bytes of a 128-bit value.
fn be16_bytes(x: u128) -> (r: Vec<u8>)
    ensures
        r@ == be16_of(x),
        r@.len() == 16,
{
    let mut r: Vec<u8> = Vec::new();
    let mut i: usize = 0;
    while i < 16
        invariant
            i <= 16,
            r@ == be16_of(x).take(i as int),
        decreases 16 - i,
    {
        let sh: u128 = (8 * (15 - i)) as u128;
        let byte: u8 = #[verifier::truncate] (((x >> sh) & 0xff) as u8);
        r.push(byte);
        i = i + 1;
        proof {
            assert(byte == be16_of(x)[i - 1]);
            assert(r@ =~= be16_of(x).take(i as int));
        }
    }
    proof {
        assert(be16_of(x).take(16) =~= be16_of(x));
    }
    r
}

/// The first 16 bytes of `d` read as a big-endian 128-bit value.
fn u128_of_prefix(d: &Vec<u8>) -> (r: u128)
    requires
        d@.len() >= 16,
    ensures
        r == u128_of_be(d@.take(16)),
{
    let mut r: u128 = 0;
    let mut i: usize = 0;
    proof {
        assert(d@.take(0) =~= Seq::<u8>::empty());
    }
    while i < 16
        invariant
            i <= 16,
            d@.len() >= 16,
            r == u128_of_be(d@.take(i as int)),
        decreases 16 - i,
    {
        r = (r << 8u128) | (d[i] as u128);
        i = i + 1;
        proof {
            assert(d@.take(i as int).drop_last() =~= d@.take(i - 1));
            assert(d@.take(i as int).last() == d@[i - 1]);
        }
    }
    r
}

fn sha512_id(seed: u128) -> (r: u128)
    ensures
        r == sha512_gen_spec(seed),
{
    let bytes = be16_bytes(seed);
    let digest = sha512(bytes.as_slice());
    u128_of_prefix(&digest)
}

/// Relies on `rand::random` for a fresh seed value; nothing is promised of
/// the value that comes back.
#[verifier::external_body]
fn random_u128() -> u128 {
    rand::random()
}

/// A 128-bit identifier together with its derivation rule.
#[derive(Clone, Copy, Debug)]
pub struct ID {
    id: u128,
    generator: IdGenerator,
}

impl PartialEq for ID {
    /// Identifiers are interchangeable by numeric value; the generator is
    /// not part of value identity.
    fn eq(&self, other: &ID) -> (r: bool) {
        self.id == other.id
    }
}

impl vstd::std_specs::cmp::PartialEqSpecImpl for ID {
    open spec fn obeys_eq_spec() -> bool {
        true
    }

    open spec fn eq_spec(&self, other: &ID) -> bool {
        self.value_spec() == other.value_spec()
    }
}

impl ID {
    /// The identifier with the given value and generator, as plain data.
    pub closed spec fn id_of(value: u128, generator: IdGenerator) -> ID {
        ID { id: value, generator }
    }

    /// The 128-bit value.
    pub closed spec fn value_spec(&self) -> u128 {
        self.id
    }

    /// The derivation rule.
    pub closed spec fn generator_spec(&self) -> IdGenerator {
        self.generator
    }

    /// Creates an identifier with the given value and the default
    /// (hash-derived) generator.
    pub fn new(id: u128) -> (r: ID)
        ensures
            r == ID::id_of(id, IdGenerator::Sha512),
            r.value_spec() == id,
            r.generator_spec() == IdGenerator::Sha512,
    {
        ID { id, generator: IdGenerator::Sha512 }
    }

    /// Creates an identifier with a random value and the default generator.
    pub fn random() -> (r: ID)
        ensures
            r.generator_spec() == IdGenerator::Sha512,
    {
        ID::new(random_u128())
    }

    /// The same identifier with its value replaced.
    pub fn with_seed(self, seed: u128) -> (r: ID)
        ensures
            r == ID::id_of(seed, self.generator_spec()),
            r.value_spec() == seed,
            r.generator_spec() == self.generator_spec(),
    {
        ID { id: seed, generator: self.generator }
    }

    /// The same identifier with its generator replaced.
    pub fn with_generator(self, generator: IdGenerator) -> (r: ID)
        ensures
            r == ID::id_of(self.value_spec(), generator),
            r.value_spec() == self.value_spec(),
            r.generator_spec() == generator,
    {
        ID { id: self.id, generator }
    }

    /// The numeric value.
    pub fn value(&self) -> (r: u128)
        ensures
            r == self.value_spec(),
    {
        self.id
    }

    /// The derivation rule.
    pub fn generator(&self) -> (r: IdGenerator)
        ensures
            r == self.generator_spec(),
    {
        self.generator
    }

    /// Applies the identifier's own generator once; the result carries the
    /// same generator, so the sequence is deterministic and restartable.
    pub fn next_id(&self) -> (r: ID)
        ensures
            r == ID::id_of(
                generator_apply(self.generator_spec(), self.value_spec()),
                self.generator_spec(),
            ),
            r.value_spec() == generator_apply(self.generator_spec(), self.value_spec()),
            r.generator_spec() == self.generator_spec(),
    {
        let id = match self.generator {
            IdGenerator::Increment => increment(self.id),
            IdGenerator::XorShift64 => xor_shift_64(self.id),
            IdGenerator::LinearCongruential => linear_congruential(self.id),
            IdGenerator::Sha512 => sha512_id(self.id),
        };
        ID { id, generator: self.generator }
    }

    /// Hashes this identifier's 16 big-endian bytes followed by the other's;
    /// the order of the two operands matters.
    pub fn join(&self, other: &ID) -> (r: ID)
        ensures
            r == ID::id_of(
                join_values(self.value_spec(), other.value_spec()),
                IdGenerator::Sha512,
            ),
            r.value_spec() == join_values(self.value_spec(), other.value_spec()),
            r.generator_spec() == IdGenerator::Sha512,
    {
        let mut bytes = be16_bytes(self.id);
        let more = be16_bytes(other.id);
        let mut i: usize = 0;
        while i < 16
            invariant
                i <= 16,
            more@.len() == 16,
                bytes@ == be16_of(self.id) + more@.take(i as int),
            decreases 16 - i,
        {
            bytes.push(more[i]);
            i = i + 1;
            assert(bytes@ =~= be16_of(self.value_spec()) + more@.take(i as int));
        }
        proof {
            assert(bytes@ =~= be16_of(self.value_spec()) + be16_of(other.value_spec()));
        }
        let digest = sha512(bytes.as_slice());
        ID::new(u128_of_prefix(&digest))
    }

    /// Hashes the UTF-8 bytes of the text and keeps the first 16 digest
    /// bytes as the value; the generator is the default one. Never fails.
    pub fn from_text(s: &str) -> (r: ID)
        ensures
            r == ID::id_of(text_value(s@), IdGenerator::Sha512),
            r.value_spec() == text_value(s@),
            r.generator_spec() == IdGenerator::Sha512,
    {
        let bytes = s.as_bytes();
        let digest = sha512(bytes);
        ID::new(u128_of_prefix(&digest))
    }

    /// An identifier whose value is the integer, zero-extended.
    pub fn from_usize(n: usize) -> (r: ID)
        ensures
            r == ID::id_of(n as u128, IdGenerator::Sha512),
            r.value_spec() == n as u128,
            r.generator_spec() == IdGenerator::Sha512,
    {
        ID::new(n as u128)
    }

    /// The 16 value bytes as 32 lower-case hex characters.
    pub fn to_hex_lower(&self) -> (r: String)
        ensures
            r@ == hex_lower_of(self.value_spec()),
    {
        let v = self.id;
        let mut out = String::new();
        let mut i: usize = 0;
        proof {
            assert(out@ =~= hex_lower_of(v).take(0));
        }
        while i < 32
            invariant
                i <= 32,
                v == self.value_spec(),
                out@ == hex_lower_of(v).take(i as int),
            decreases 32 - i,
        {
            let sh: u128 = (4 * (31 - i)) as u128;
            let d: u8 = #[verifier::truncate] (((v >> sh) & 0xf) as u8);
            proof {
                assert((v >> sh) & 0xf < 16) by (bit_vector);
            }
            out.append(hex_digit_lower(d));
            i = i + 1;
            proof {
                assert(d == nibble(v, i - 1));
                assert(out@ =~= hex_lower_of(v).take(i as int));
            }
        }
        proof {
            assert(hex_lower_of(v).take(32) =~= hex_lower_of(v));
        }
        out
    }

    /// The 16 value bytes as 32 upper-case hex characters.
    pub fn to_hex_upper(&self) -> (r: String)
        ensures
            r@ == hex_upper_of(self.value_spec()),
    {
        let v = self.id;
        let mut out = String::new();
        let mut i: usize = 0;
        proof {
            assert(out@ =~= hex_upper_of(v).take(0));
        }
        while i < 32
            invariant
                i <= 32,
                v == self.value_spec(),
                out@ == hex_upper_of(v).take(i as int),
            decreases 32 - i,
        {
            let sh: u128 = (4 * (31 - i)) as u128;
            let d: u8 = #[verifier::truncate] (((v >> sh) & 0xf) as u8);
            proof {
                assert((v >> sh) & 0xf < 16) by (bit_vector);
            }
            out.append(hex_digit_upper(d));
            i = i + 1;
            proof {
                assert(d == nibble(v, i - 1));
                assert(out@ =~= hex_upper_of(v).take(i as int));
            }
        }
        proof {
            assert(hex_upper_of(v).take(32) =~= hex_upper_of(v));
        }
        out
    }
}

impl Default for ID {
    /// A random identifier carrying the default generator.
    fn default() -> (r: ID)
        ensures
            r.generator_spec() == IdGenerator::Sha512,
    {
        ID::random()
    }
}

/// The hexadecimal digit for a value below 16, lower case.
pub open spec fn hex_char_lower(d: u8) -> char {
    if d == 0 {
        '0'
    } else if d == 1 {
        '1'
    } else if d == 2 {
        '2'
    } else if d == 3 {
        '3'
    } else if d == 4 {
        '4'
    } else if d == 5 {
        '5'
    } else if d == 6 {
        '6'
    } else if d == 7 {
        '7'
    } else if d == 8 {
        '8'
    } else if d == 9 {
        '9'
    } else if d == 10 {
        'a'
    } else if d == 11 {
        'b'
    } else if d == 12 {
        'c'
    } else if d == 13 {
        'd'
    } else if d == 14 {
        'e'
    } else {
        'f'
    }
}

/// The hexadecimal digit for a value below 16, upper case.
pub open spec fn hex_char_upper(d: u8) -> char {
    if d < 10 {
        hex_char_lower(d)
    } else if d == 10 {
        'A'
    } else if d == 11 {
        'B'
    } else if d == 12 {
        'C'
    } else if d == 13 {
        'D'
    } else if d == 14 {
        'E'
    } else {
        'F'
    }
}

/// The `i`-th hexadecimal digit of `v`, counting from the most significant
/// of 32.
pub open spec fn nibble(v: u128, i: int) -> u8 {
    ((v >> ((4 * (31 - i)) as u128)) & 0xf) as u8
}

/// The 32 lower-case hex characters of a 128-bit value, no separators.
pub open spec fn hex_lower_of(v: u128) -> Seq<char> {
    Seq::new(32, |i: int| hex_char_lower(nibble(v, i)))
}

/// The 32 upper-case hex characters of a 128-bit value, no separators.
pub open spec fn hex_upper_of(v: u128) -> Seq<char> {
    Seq::new(32, |i: int| hex_char_upper(nibble(v, i)))
}

fn hex_digit_lower(d: u8) -> (r: &'static str)
    requires
        d < 16,
    ensures
        r@ == seq![hex_char_lower(d)],
{
    let r: &'static str = match d {
        0 => "0",
        1 => "1",
        2 => "2",
        3 => "3",
        4 => "4",
        5 => "5",
        6 => "6",
        7 => "7",
        8 => "8",
        9 => "9",
        10 => "a",
        11 => "b",
        12 => "c",
        13 => "d",
        14 => "e",
        _ => "f",
    };
    proof {
        reveal_strlit("0");
        reveal_strlit("1");
        reveal_strlit("2");
        reveal_strlit("3");
        reveal_strlit("4");
        reveal_strlit("5");
        reveal_strlit("6");
        reveal_strlit("7");
        reveal_strlit("8");
        reveal_strlit("9");
        reveal_strlit("a");
        reveal_strlit("b");
        reveal_strlit("c");
        reveal_strlit("d");
        reveal_strlit("e");
        reveal_strlit("f");
        assert(r@ =~= seq![hex_char_lower(d)]);
    }
    r
}

fn hex_digit_upper(d: u8) -> (r: &'static str)
    requires
        d < 16,
    ensures
        r@ == seq![hex_char_upper(d)],
{
    let r: &'static str = match d {
        0 => "0",
        1 => "1",
        2 => "2",
        3 => "3",
        4 => "4",
        5 => "5",
        6 => "6",
        7 => "7",
        8 => "8",
        9 => "9",
        10 => "A",
        11 => "B",
        12 => "C",
        13 => "D",
        14 => "E",
        _ => "F",
    };
    proof {
        reveal_strlit("0");
        reveal_strlit("1");
        reveal_strlit("2");
        reveal_strlit("3");
        reveal_strlit("4");
        reveal_strlit("5");
        reveal_strlit("6");
        reveal_strlit("7");
        reveal_strlit("8");
        reveal_strlit("9");
        reveal_strlit("A");
        reveal_strlit("B");
        reveal_strlit("C");
        reveal_strlit("D");
        reveal_strlit("E");
        reveal_strlit("F");
        assert(r@ =~= seq![hex_char_upper(d)]);
    }
    r
}

/// Two identifiers built from equal texts carry equal values.
pub proof fn lemma_from_text_deterministic(s1: Seq<char>, s2: Seq<char>)
    requires
        s1 == s2,
    ensures
        text_value(s1) == text_value(s2),
{
}

/// Advancing twice from a seed is exactly the generator composed with itself.
pub proof fn lemma_advance_twice(g: IdGenerator, s: u128)
    ensures
        advance(g, s, 2) == generator_apply(g, generator_apply(g, s)),
{
    assert(advance(g, s, 0) == s);
    assert(advance(g, s, 1) == generator_apply(g, advance(g, s, 0)));
    assert(advance(g, s, 2) == generator_apply(g, advance(g, s, 1)));
}

/// The sequence an identifier generates is restartable: any two identifiers
/// with the same value and generator reach the same value after any number
/// of steps.
pub proof fn lemma_sequence_restartable(a: ID, b: ID, n: nat)
    requires
        a.value_spec() == b.value_spec(),
        a.generator_spec() == b.generator_spec(),
    ensures
        advance(a.generator_spec(), a.value_spec(), n) == advance(
            b.generator_spec(),
            b.value_spec(),
            n,
        ),
{
}

proof fn lemma_be16_take_roundtrip(x: u128, k: int)
    requires
        0 <= k <= 16,
    ensures
        u128_of_be(be16_of(x).take(k)) == if k == 0 {
            0u128
        } else {
            x >> ((8 * (16 - k)) as u128)
        },
    decreases k,
{
    if k == 0 {
        assert(be16_of(x).take(0) =~= Seq::<u8>::empty());
    } else {
        lemma_be16_take_roundtrip(x, k - 1);
        assert(be16_of(x).take(k).drop_last() =~= be16_of(x).take(k - 1));
        assert(be16_of(x).take(k).last() == be16_of(x)[k - 1]);
        let s2: u128 = (8 * (16 - k)) as u128;
        if k == 1 {
            assert((0u128 << 8u128) | ((((x >> 120u128) & 0xff) as u8) as u128) == x
                >> 120u128) by (bit_vector);
        } else {
            let s1: u128 = (8 * (17 - k)) as u128;
            assert(((x >> s1) << 8u128) | ((((x >> s2) & 0xff) as u8) as u128) == x
                >> s2) by (bit_vector)
                requires
                    s1 == s2 + 8,
                    s2 <= 112,
            ;
        }
    }
}

/// Reading the 16 big-endian bytes of a value back gives the value.
pub proof fn lemma_be16_roundtrip(x: u128)
    ensures
        u128_of_be(be16_of(x)) == x,
{
    lemma_be16_take_roundtrip(x, 16);
    assert(be16_of(x).take(16) =~= be16_of(x));
    assert(x >> 0u128 == x) by (bit_vector);
}

/// Rendering to 16 big-endian bytes is injective.
pub proof fn lemma_be16_injective(a: u128, b: u128)
    requires
        be16_of(a) == be16_of(b),
    ensures
        a == b,
{
    lemma_be16_roundtrip(a);
    lemma_be16_roundtrip(b);
}

/// `join` is order-sensitive at the input of the hash: whenever two values
/// differ, the 32-byte buffers hashed for `join(a, b)` and `join(b, a)`
/// differ.
pub proof fn lemma_join_inputs_differ(a: u128, b: u128)
    requires
        a != b,
    ensures
        be16_of(a) + be16_of(b) != be16_of(b) + be16_of(a),
{
    if be16_of(a) + be16_of(b) == be16_of(b) + be16_of(a) {
        assert forall|i: int| 0 <= i < 16 implies be16_of(a)[i] == be16_of(b)[i] by {
            assert((be16_of(a) + be16_of(b))[i] == be16_of(a)[i]);
            assert((be16_of(b) + be16_of(a))[i] == be16_of(b)[i]);
        }
        assert(be16_of(a) =~= be16_of(b));
        lemma_be16_injective(a, b);
    }
}

} // verus!
