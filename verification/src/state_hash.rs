//! Deterministic 32-byte digests and hex encodings used for on-chain
//! identifiers: four FNV-1a 64-bit lanes with distinct seeds.

use vstd::prelude::*;
use vstd::string::StringSliceAdditionalSpecFns;
use crate::support::{extend_bytes, string_push};

verus! {

pub const FNV_OFFSET_BASIS: u64 = 0xcbf29ce484222325;
pub const FNV_PRIME: u64 = 0x00000100000001B3;
pub const LANE_MULTIPLIER: u64 = 0x9e3779b97f4a7c15;

/// FNV-1a over `bytes`, starting from `seed`.
pub open spec fn fnv1a64_spec(bytes: Seq<u8>, seed: u64) -> u64
    decreases bytes.len(),
{
    if bytes.len() == 0 {
        seed
    } else {
        (fnv1a64_spec(bytes.drop_last(), seed) ^ (bytes.last() as u64)).wrapping_mul(FNV_PRIME)
    }
}

/// Seed of lane `i` (0..4): the offset basis xor `(i + 1) * LANE_MULTIPLIER` (mod 2^64).
pub open spec fn lane_seed(i: u64) -> u64 {
    FNV_OFFSET_BASIS ^ ((i + 1) as u64).wrapping_mul(LANE_MULTIPLIER)
}

/// Little-endian bytes of a `u64`.
pub open spec fn le64(x: u64) -> Seq<u8> {
    seq![
        (x & 0xff) as u8,
        ((x >> 8u64) & 0xff) as u8,
        ((x >> 16u64) & 0xff) as u8,
        ((x >> 24u64) & 0xff) as u8,
        ((x >> 32u64) & 0xff) as u8,
        ((x >> 40u64) & 0xff) as u8,
        ((x >> 48u64) & 0xff) as u8,
        ((x >> 56u64) & 0xff) as u8,
    ]
}

/// Little-endian bytes of a `u32`.
pub open spec fn le32(x: u32) -> Seq<u8> {
    seq![
        (x & 0xff) as u8,
        ((x >> 8u32) & 0xff) as u8,
        ((x >> 16u32) & 0xff) as u8,
        ((x >> 24u32) & 0xff) as u8,
    ]
}

/// The 32-byte digest: the four lanes, each written little-endian.
pub open spec fn digest(bytes: Seq<u8>) -> Seq<u8> {
    le64(fnv1a64_spec(bytes, lane_seed(0))) + le64(fnv1a64_spec(bytes, lane_seed(1))) + le64(
        fnv1a64_spec(bytes, lane_seed(2)),
    ) + le64(fnv1a64_spec(bytes, lane_seed(3)))
}

/// ASCII bytes of `game_id:`.
pub open spec fn game_id_tag() -> Seq<u8> {
    seq![103u8, 97, 109, 101, 95, 105, 100, 58]
}

/// ASCII bytes of `proof_id:`.
pub open spec fn proof_id_tag() -> Seq<u8> {
    seq![112u8, 114, 111, 111, 102, 95, 105, 100, 58]
}

/// Lower-case hex digit of a value below 16.
pub open spec fn hex_digit_spec(n: u8) -> char {
    if n < 10 {
        (48 + n) as char
    } else {
        (87 + n) as char
    }
}

/// Two lower-case hex digits per byte, high nibble first.
pub open spec fn hex_chars(bytes: Seq<u8>) -> Seq<char>
    decreases bytes.len(),
{
    if bytes.len() == 0 {
        Seq::empty()
    } else {
        hex_chars(bytes.drop_last()) + seq![
            hex_digit_spec(bytes.last() / 16),
            hex_digit_spec(bytes.last() % 16),
        ]
    }
}

/// `0x` followed by the hex digits of `bytes`.
pub open spec fn prefixed_hex(bytes: Seq<u8>) -> Seq<char> {
    seq!['0', 'x'] + hex_chars(bytes)
}

pub open spec fn is_hex_digit_byte(b: u8) -> bool {
    (48 <= b <= 57) || (97 <= b <= 102) || (65 <= b <= 70)
}

/// 42 bytes: `0x` then 40 ASCII hex digits (either case).
pub open spec fn is_evm_address_bytes(b: Seq<u8>) -> bool {
    &&& b.len() == 42
    &&& b[0] == 48u8
    &&& b[1] == 120u8
    &&& forall|i: int| 2 <= i < 42 ==> is_hex_digit_byte(#[trigger] b[i])
}

pub fn fnv1a64_with_seed(bytes: &[u8], seed: u64) -> (h: u64)
    ensures
        h == fnv1a64_spec(bytes@, seed),
{
    let mut hash = seed;
    let n = bytes.len();
    let mut i: usize = 0;
    while i < n
        invariant
            n == bytes@.len(),
            i <= n,
            hash == fnv1a64_spec(bytes@.take(i as int), seed),
        decreases n - i,
    {
        let b = bytes[i];
        proof {
            assert(bytes@.take(i + 1).drop_last() =~= bytes@.take(i as int));
        }
        hash = (hash ^ (b as u64)).wrapping_mul(FNV_PRIME);
        i += 1;
    }
    assert(bytes@.take(n as int) =~= bytes@);
    hash
}

/// Writes the little-endian bytes of `x` at `out[start..start + 8]`.
fn put_le64(out: &mut [u8; 32], start: usize, x: u64)
    requires
        start + 8 <= 32,
    ensures
        final(out)@ =~= old(out)@.take(start as int) + le64(x) + old(out)@.skip(start + 8),
{
    out[start] = (x & 0xff) as u8;
    out[start + 1] = ((x >> 8) & 0xff) as u8;
    out[start + 2] = ((x >> 16) & 0xff) as u8;
    out[start + 3] = ((x >> 24) & 0xff) as u8;
    out[start + 4] = ((x >> 32) & 0xff) as u8;
    out[start + 5] = ((x >> 40) & 0xff) as u8;
    out[start + 6] = ((x >> 48) & 0xff) as u8;
    out[start + 7] = ((x >> 56) & 0xff) as u8;
}

/// The 32-byte digest of `bytes`.
pub fn hash_bytes(bytes: &[u8]) -> (out: [u8; 32])
    ensures
        out@ == digest(bytes@),
{
    let mut out = [0u8; 32];
    let s0 = FNV_OFFSET_BASIS ^ 1u64.wrapping_mul(LANE_MULTIPLIER);
    let s1 = FNV_OFFSET_BASIS ^ 2u64.wrapping_mul(LANE_MULTIPLIER);
    let s2 = FNV_OFFSET_BASIS ^ 3u64.wrapping_mul(LANE_MULTIPLIER);
    let s3 = FNV_OFFSET_BASIS ^ 4u64.wrapping_mul(LANE_MULTIPLIER);
    let h0 = fnv1a64_with_seed(bytes, s0);
    let h1 = fnv1a64_with_seed(bytes, s1);
    let h2 = fnv1a64_with_seed(bytes, s2);
    let h3 = fnv1a64_with_seed(bytes, s3);
    put_le64(&mut out, 0, h0);
    put_le64(&mut out, 8, h1);
    put_le64(&mut out, 16, h2);
    put_le64(&mut out, 24, h3);
    assert(out@ =~= digest(bytes@));
    out
}

/// Digest identifying the game of a room: `digest("game_id:" ++ room_id)`.
pub fn compute_game_id(room_id: &str) -> (id: [u8; 32])
    ensures
        id@ == digest(game_id_tag() + room_id.spec_bytes()),
{
    let tag: [u8; 8] = [103, 97, 109, 101, 95, 105, 100, 58];
    let mut input: Vec<u8> = Vec::new();
    extend_bytes(&mut input, tag.as_slice());
    extend_bytes(&mut input, room_id.as_bytes());
    assert(input@ =~= game_id_tag() + room_id.spec_bytes());
    hash_bytes(input.as_slice())
}

/// Digest of a player's commitment in a room: `digest(room_id ++ player_id ++
/// commitment)`, where `commitment` is the commitment's JSON text.
pub fn compute_commitment_hash(room_id: &str, player_id: &str, commitment: &str) -> (h: [u8; 32])
    ensures
        h@ == digest(room_id.spec_bytes() + player_id.spec_bytes() + commitment.spec_bytes()),
{
    let mut input: Vec<u8> = Vec::new();
    extend_bytes(&mut input, room_id.as_bytes());
    extend_bytes(&mut input, player_id.as_bytes());
    extend_bytes(&mut input, commitment.as_bytes());
    assert(input@ =~= room_id.spec_bytes() + player_id.spec_bytes() + commitment.spec_bytes());
    hash_bytes(input.as_slice())
}

/// Digest identifying a proof: `digest("proof_id:" ++ seed)`.
pub fn compute_proof_id(seed: &str) -> (id: [u8; 32])
    ensures
        id@ == digest(proof_id_tag() + seed.spec_bytes()),
{
    let tag: [u8; 9] = [112, 114, 111, 111, 102, 95, 105, 100, 58];
    let mut input: Vec<u8> = Vec::new();
    extend_bytes(&mut input, tag.as_slice());
    extend_bytes(&mut input, seed.as_bytes());
    assert(input@ =~= proof_id_tag() + seed.spec_bytes());
    hash_bytes(input.as_slice())
}

pub fn hex_digit(n: u8) -> (c: char)
    requires
        n < 16,
    ensures
        c == hex_digit_spec(n),
{
    if n < 10 {
        (48 + n) as char
    } else {
        (87 + n) as char
    }
}

/// `0x` followed by two lower-case hex digits per byte.
pub fn bytes_to_hex(bytes: &[u8]) -> (s: String)
    ensures
        s@ == prefixed_hex(bytes@),
{
    let mut out = String::new();
    string_push(&mut out, '0');
    string_push(&mut out, 'x');
    let n = bytes.len();
    let mut i: usize = 0;
    while i < n
        invariant
            n == bytes@.len(),
            i <= n,
            out@ == prefixed_hex(bytes@.take(i as int)),
        decreases n - i,
    {
        let b = bytes[i];
        assert(b >> 4u8 == b / 16 && b & 0x0fu8 == b % 16) by (bit_vector);
        string_push(&mut out, hex_digit(b >> 4));
        string_push(&mut out, hex_digit(b & 0x0f));
        proof {
            assert(bytes@.take(i + 1).drop_last() =~= bytes@.take(i as int));
            assert(out@ =~= prefixed_hex(bytes@.take(i + 1)));
        }
        i += 1;
    }
    assert(bytes@.take(n as int) =~= bytes@);
    out
}

/// Hex encoding of a 32-byte value (66 characters).
pub fn bytes32_to_hex(bytes: &[u8; 32]) -> (s: String)
    ensures
        s@ == prefixed_hex(bytes@),
{
    bytes_to_hex(bytes.as_slice())
}

pub fn is_ascii_hexdigit(b: u8) -> (r: bool)
    ensures
        r == is_hex_digit_byte(b),
{
    (48 <= b && b <= 57) || (97 <= b && b <= 102) || (65 <= b && b <= 70)
}

/// Whether `value` looks like an EVM address: `0x` and 40 hex digits.
pub fn is_evm_address(value: &str) -> (r: bool)
    ensures
        r == is_evm_address_bytes(value.spec_bytes()),
{
    let b = value.as_bytes();
    if b.len() != 42 || b[0] != 48 || b[1] != 120 {
        return false;
    }
    let mut i: usize = 2;
    while i < 42
        invariant
            b@ == value.spec_bytes(),
            b@.len() == 42,
            2 <= i <= 42,
            forall|k: int| 2 <= k < i ==> is_hex_digit_byte(#[trigger] b@[k]),
        decreases 42 - i,
    {
        if !is_ascii_hexdigit(b[i]) {
            return false;
        }
        i += 1;
    }
    true
}

} // verus!

verus! {

/// The value of a hex digit (either case); -1 for any other character.
pub open spec fn hex_value(c: char) -> int {
    let n = c as u32;
    if 48 <= n <= 57 {
        n - 48
    } else if 97 <= n <= 102 {
        n - 87
    } else if 65 <= n <= 70 {
        n - 55
    } else {
        -1
    }
}

proof fn lemma_hex_digit_value(n: u8)
    requires
        n < 16,
    ensures
        hex_value(hex_digit_spec(n)) == n,
{
}

/// The hex text of some bytes reads back as those bytes: two digits per
/// byte, high nibble first.
pub proof fn lemma_hex_chars_read_back(bytes: Seq<u8>)
    ensures
        hex_chars(bytes).len() == 2 * bytes.len(),
        forall|i: int|
            0 <= i < bytes.len() ==> hex_value(hex_chars(bytes)[2 * i]) * 16 + hex_value(
                hex_chars(bytes)[2 * i + 1],
            ) == #[trigger] bytes[i],
    decreases bytes.len(),
{
    if bytes.len() > 0 {
        let init = bytes.drop_last();
        lemma_hex_chars_read_back(init);
        let b = bytes.last();
        lemma_hex_digit_value(b / 16);
        lemma_hex_digit_value(b % 16);
        assert forall|i: int| 0 <= i < bytes.len() implies hex_value(hex_chars(bytes)[2 * i]) * 16
            + hex_value(hex_chars(bytes)[2 * i + 1]) == #[trigger] bytes[i] by {
            if i < init.len() {
                assert(hex_chars(bytes)[2 * i] == hex_chars(init)[2 * i]);
                assert(hex_chars(bytes)[2 * i + 1] == hex_chars(init)[2 * i + 1]);
                assert(init[i] == bytes[i]);
            } else {
                assert(hex_chars(bytes)[2 * i] == hex_digit_spec(b / 16));
                assert(hex_chars(bytes)[2 * i + 1] == hex_digit_spec(b % 16));
            }
        }
    }
}

/// The `0x` text `bytes32_to_hex` gives reads back as the bytes, so two
/// byte strings with the same text are equal.
pub proof fn lemma_prefixed_hex_read_back(a: Seq<u8>, b: Seq<u8>)
    ensures
        prefixed_hex(a).len() == 2 + 2 * a.len(),
        forall|i: int|
            0 <= i < a.len() ==> hex_value(prefixed_hex(a)[2 + 2 * i]) * 16 + hex_value(
                prefixed_hex(a)[3 + 2 * i],
            ) == #[trigger] a[i],
        prefixed_hex(a) == prefixed_hex(b) ==> a == b,
{
    lemma_hex_chars_read_back(a);
    lemma_hex_chars_read_back(b);
    assert forall|i: int| 0 <= i < a.len() implies hex_value(prefixed_hex(a)[2 + 2 * i]) * 16 + hex_value(
        prefixed_hex(a)[3 + 2 * i],
    ) == #[trigger] a[i] by {
        assert(prefixed_hex(a)[2 + 2 * i] == hex_chars(a)[2 * i]);
        assert(prefixed_hex(a)[3 + 2 * i] == hex_chars(a)[2 * i + 1]);
    }
    if prefixed_hex(a) == prefixed_hex(b) {
        assert(hex_chars(a) =~= prefixed_hex(a).skip(2));
        assert(hex_chars(b) =~= prefixed_hex(b).skip(2));
        assert forall|i: int| 0 <= i < a.len() implies a[i] == b[i] by {
            assert(hex_chars(a)[2 * i] == hex_chars(b)[2 * i]);
            assert(hex_chars(a)[2 * i + 1] == hex_chars(b)[2 * i + 1]);
        }
        assert(a =~= b);
    }
}

} // verus!
