use vstd::prelude::*;
use crate::crc::{
    crc_byte, crc_fold, crc_step, crc_steps, crc32, crc32_seeded, lemma_crc_fold_append,
    lemma_crc_steps_add, CRC_POLY, FINAL_XOR,
};

verus! {

/// The register contribution of one target bit under the reversed recurrence:
/// 32 forward shifts carry it onto the highest bit.
pub const CRC_INV: u32 = 0x5B358FD3;

/// The accumulator of the reversed recurrence after its first `k` rounds over
/// the register value `t`, consumed lowest bit first.
pub open spec fn forge_acc(t: u32, k: nat) -> u32
    decreases k,
{
    if k == 0 {
        0
    } else {
        let c = crc_step(forge_acc(t, (k - 1) as nat));
        if (t >> ((k - 1) as u32)) & 1 == 1 {
            c ^ CRC_INV
        } else {
            c
        }
    }
}

/// The 32-bit word whose little-endian bytes move the checksum `from` to `to`.
pub open spec fn forged_word(from: u32, to: u32) -> u32 {
    forge_acc(to ^ FINAL_XOR, 32) ^ (from ^ FINAL_XOR)
}

/// The bytes of `w`, least significant first.
pub open spec fn le_bytes(w: u32) -> Seq<u8> {
    seq![w as u8, (w >> 8) as u8, (w >> 16) as u8, (w >> 24) as u8]
}

/// The suffix that moves the checksum `from` to `to`.
pub open spec fn forged_suffix(from: u32, to: u32) -> Seq<u8> {
    le_bytes(forged_word(from, to))
}

/// The bits of `t` below position `k`.
pub open spec fn low_mask(k: u32) -> u32 {
    if k >= 32 {
        0xFFFFFFFF
    } else {
        !(0xFFFFFFFFu32 << k)
    }
}

proof fn lemma_step_xor(a: u32, b: u32)
    by (bit_vector)
    ensures
        crc_step(a ^ b) == crc_step(a) ^ crc_step(b),
{
}

/// Shifting the register is linear over xor.
proof fn lemma_steps_xor(a: u32, b: u32, n: nat)
    ensures
        crc_steps(a ^ b, n) == crc_steps(a, n) ^ crc_steps(b, n),
    decreases n,
{
    if n > 0 {
        lemma_steps_xor(a, b, (n - 1) as nat);
        lemma_step_xor(crc_steps(a, (n - 1) as nat), crc_steps(b, (n - 1) as nat));
    }
}

proof fn lemma_high_bits(h: u32, n: u32)
    by (bit_vector)
    requires
        n < 32,
        h & low_mask((n + 1) as u32) == 0,
    ensures
        h & low_mask(n) == 0,
        crc_step(h >> n) == h >> ((n + 1) as u32),
{
}

/// A register with its low `n` bits clear just shifts right under `n` steps.
proof fn lemma_steps_of_high(h: u32, n: nat)
    requires
        n <= 32,
        h & low_mask(n as u32) == 0,
    ensures
        crc_steps(h, n) == h >> (n as u32),
    decreases n,
{
    if n == 0 {
        assert(h >> 0u32 == h) by (bit_vector);
    } else {
        lemma_high_bits(h, (n - 1) as u32);
        lemma_steps_of_high(h, (n - 1) as nat);
    }
}

proof fn lemma_split_low_byte(c: u32, w: u32)
    by (bit_vector)
    ensures
        c ^ w == (c ^ ((w as u8) as u32)) ^ ((w >> 8u32) << 8u32),
        ((w >> 8u32) << 8u32) & low_mask(8) == 0,
        ((w >> 8u32) << 8u32) >> 8u32 == w >> 8u32,
{
}

/// Eight shifts of `c ^ w` fold in the low byte of `w` and pass the rest on.
proof fn lemma_byte_stage(c: u32, w: u32, n: nat)
    ensures
        crc_steps(c ^ w, 8 + n) == crc_steps(crc_byte(c, w as u8) ^ (w >> 8u32), n),
{
    lemma_crc_steps_add(c ^ w, 8, n);
    lemma_split_low_byte(c, w);
    let h = (w >> 8u32) << 8u32;
    lemma_steps_xor(c ^ ((w as u8) as u32), h, 8);
    lemma_steps_of_high(h, 8);
}

proof fn lemma_word_bytes(w: u32)
    by (bit_vector)
    ensures
        ((w >> 8u32) >> 8u32) == w >> 16u32,
        ((w >> 16u32) >> 8u32) == w >> 24u32,
        ((w >> 24u32) as u8) as u32 == w >> 24u32,
{
}

/// Folding the four little-endian bytes of `w` into `c` is 32 shifts of `c ^ w`.
proof fn lemma_fold_word(c: u32, w: u32)
    ensures
        crc_fold(c, le_bytes(w)) == crc_steps(c ^ w, 32),
{
    let b = le_bytes(w);
    let c1 = crc_byte(c, w as u8);
    let c2 = crc_byte(c1, (w >> 8u32) as u8);
    let c3 = crc_byte(c2, (w >> 16u32) as u8);
    let c4 = crc_byte(c3, (w >> 24u32) as u8);
    lemma_word_bytes(w);
    lemma_byte_stage(c, w, 24);
    lemma_byte_stage(c1, w >> 8u32, 16);
    lemma_byte_stage(c2, w >> 16u32, 8);
    assert(crc_steps(c ^ w, 32) == c4);
    let s3 = b.drop_last();
    let s2 = s3.drop_last();
    let s1 = s2.drop_last();
    assert(s1.drop_last() =~= Seq::<u8>::empty());
    assert(s1.last() == w as u8);
    assert(crc_fold(c, s1.drop_last()) == c);
    assert(crc_fold(c, s1) == c1);
    assert(s2.last() == (w >> 8u32) as u8);
    assert(crc_fold(c, s2) == c2);
    assert(s3.last() == (w >> 16u32) as u8);
    assert(crc_fold(c, s3) == c3);
    assert(b.last() == (w >> 24u32) as u8);
}

proof fn lemma_inv_chain()
    by (bit_vector)
    ensures
        crc_step(0x5B358FD3u32) == 0xC02244C9u32,
        crc_step(0xC02244C9u32) == 0x8DA9A144u32,
        crc_step(0x8DA9A144u32) == 0x46D4D0A2u32,
        crc_step(0x46D4D0A2u32) == 0x236A6851u32,
        crc_step(0x236A6851u32) == 0xFC0DB708u32,
        crc_step(0xFC0DB708u32) == 0x7E06DB84u32,
        crc_step(0x7E06DB84u32) == 0x3F036DC2u32,
        crc_step(0x3F036DC2u32) == 0x1F81B6E1u32,
        crc_step(0x1F81B6E1u32) == 0xE2785850u32,
        crc_step(0xE2785850u32) == 0x713C2C28u32,
        crc_step(0x713C2C28u32) == 0x389E1614u32,
        crc_step(0x389E1614u32) == 0x1C4F0B0Au32,
        crc_step(0x1C4F0B0Au32) == 0x0E278585u32,
        crc_step(0x0E278585u32) == 0xEAAB41E2u32,
        crc_step(0xEAAB41E2u32) == 0x7555A0F1u32,
        crc_step(0x7555A0F1u32) == 0xD7125358u32,
        crc_step(0xD7125358u32) == 0x6B8929ACu32,
        crc_step(0x6B8929ACu32) == 0x35C494D6u32,
        crc_step(0x35C494D6u32) == 0x1AE24A6Bu32,
        crc_step(0x1AE24A6Bu32) == 0xE0C9A615u32,
        crc_step(0xE0C9A615u32) == 0x9DDC502Au32,
        crc_step(0x9DDC502Au32) == 0x4EEE2815u32,
        crc_step(0x4EEE2815u32) == 0xCACF972Au32,
        crc_step(0xCACF972Au32) == 0x6567CB95u32,
        crc_step(0x6567CB95u32) == 0xDF0B66EAu32,
        crc_step(0xDF0B66EAu32) == 0x6F85B375u32,
        crc_step(0x6F85B375u32) == 0xDA7A5A9Au32,
        crc_step(0xDA7A5A9Au32) == 0x6D3D2D4Du32,
        crc_step(0x6D3D2D4Du32) == 0xDB261586u32,
        crc_step(0xDB261586u32) == 0x6D930AC3u32,
        crc_step(0x6D930AC3u32) == 0xDB710641u32,
        crc_step(0xDB710641u32) == 0x80000000u32,
{
}

/// 32 forward shifts carry the inverse constant onto the highest bit.
proof fn lemma_inv_reaches_top()
    ensures
        crc_steps(CRC_INV, 32) == 0x80000000u32,
{
    lemma_inv_chain();
    assert(crc_steps(CRC_INV, 0) == 0x5B358FD3u32);
    assert(crc_steps(CRC_INV, 1) == 0xC02244C9u32);
    assert(crc_steps(CRC_INV, 2) == 0x8DA9A144u32);
    assert(crc_steps(CRC_INV, 3) == 0x46D4D0A2u32);
    assert(crc_steps(CRC_INV, 4) == 0x236A6851u32);
    assert(crc_steps(CRC_INV, 5) == 0xFC0DB708u32);
    assert(crc_steps(CRC_INV, 6) == 0x7E06DB84u32);
    assert(crc_steps(CRC_INV, 7) == 0x3F036DC2u32);
    assert(crc_steps(CRC_INV, 8) == 0x1F81B6E1u32);
    assert(crc_steps(CRC_INV, 9) == 0xE2785850u32);
    assert(crc_steps(CRC_INV, 10) == 0x713C2C28u32);
    assert(crc_steps(CRC_INV, 11) == 0x389E1614u32);
    assert(crc_steps(CRC_INV, 12) == 0x1C4F0B0Au32);
    assert(crc_steps(CRC_INV, 13) == 0x0E278585u32);
    assert(crc_steps(CRC_INV, 14) == 0xEAAB41E2u32);
    assert(crc_steps(CRC_INV, 15) == 0x7555A0F1u32);
    assert(crc_steps(CRC_INV, 16) == 0xD7125358u32);
    assert(crc_steps(CRC_INV, 17) == 0x6B8929ACu32);
    assert(crc_steps(CRC_INV, 18) == 0x35C494D6u32);
    assert(crc_steps(CRC_INV, 19) == 0x1AE24A6Bu32);
    assert(crc_steps(CRC_INV, 20) == 0xE0C9A615u32);
    assert(crc_steps(CRC_INV, 21) == 0x9DDC502Au32);
    assert(crc_steps(CRC_INV, 22) == 0x4EEE2815u32);
    assert(crc_steps(CRC_INV, 23) == 0xCACF972Au32);
    assert(crc_steps(CRC_INV, 24) == 0x6567CB95u32);
    assert(crc_steps(CRC_INV, 25) == 0xDF0B66EAu32);
    assert(crc_steps(CRC_INV, 26) == 0x6F85B375u32);
    assert(crc_steps(CRC_INV, 27) == 0xDA7A5A9Au32);
    assert(crc_steps(CRC_INV, 28) == 0x6D3D2D4Du32);
    assert(crc_steps(CRC_INV, 29) == 0xDB261586u32);
    assert(crc_steps(CRC_INV, 30) == 0x6D930AC3u32);
    assert(crc_steps(CRC_INV, 31) == 0xDB710641u32);
    assert(crc_steps(CRC_INV, 32) == 0x80000000u32);
}

proof fn lemma_step_of_bit(j: u32)
    by (bit_vector)
    requires
        1 <= j <= 31,
    ensures
        crc_step(1u32 << j) == 1u32 << ((j - 1) as u32),
{
}

/// The highest bit walks down one position per shift.
proof fn lemma_top_bit_down(m: nat)
    requires
        m <= 31,
    ensures
        crc_steps(0x80000000u32, m) == 1u32 << ((31 - m) as u32),
    decreases m,
{
    if m == 0 {
        assert(0x80000000u32 == 1u32 << 31u32) by (bit_vector);
    } else {
        lemma_top_bit_down((m - 1) as nat);
        lemma_step_of_bit((32 - m) as u32);
    }
}

proof fn lemma_mask_step(t: u32, j: u32)
    by (bit_vector)
    requires
        j < 32,
    ensures
        (t >> j) & 1 == 1 ==> (t & low_mask(j)) ^ (1u32 << j) == t & low_mask((j + 1) as u32),
        (t >> j) & 1 != 1 ==> t & low_mask(j) == t & low_mask((j + 1) as u32),
        t & low_mask(0) == 0,
        t & low_mask(32) == t,
        0u32 ^ 0u32 == 0u32,
{
}

/// After `k` rounds, `64 - k` forward shifts of the accumulator give back the
/// low `k` bits of `t`.
proof fn lemma_forge_acc(t: u32, k: nat)
    requires
        k <= 32,
    ensures
        crc_steps(forge_acc(t, k), (64 - k) as nat) == t & low_mask(k as u32),
    decreases k,
{
    lemma_mask_step(t, 0);
    if k == 0 {
        lemma_steps_xor(0, 0, 64);
        let z = crc_steps(0, 64);
        assert(z ^ z == 0) by (bit_vector);
    } else {
        let j = (k - 1) as nat;
        let a = forge_acc(t, j);
        let c = crc_step(a);
        lemma_forge_acc(t, j);
        lemma_mask_step(t, j as u32);
        assert(crc_steps(a, 0) == a);
        assert(crc_steps(a, 1) == c);
        lemma_crc_steps_add(a, 1, (64 - k) as nat);
        assert(crc_steps(c, (64 - k) as nat) == t & low_mask(j as u32));
        if (t >> (j as u32)) & 1 == 1 {
            lemma_steps_xor(c, CRC_INV, (64 - k) as nat);
            lemma_inv_reaches_top();
            lemma_crc_steps_add(CRC_INV, 32, (32 - k) as nat);
            lemma_top_bit_down((32 - k) as nat);
            assert(crc_steps(CRC_INV, (64 - k) as nat) == 1u32 << (j as u32));
            assert(forge_acc(t, k) == c ^ CRC_INV);
        } else {
            assert(forge_acc(t, k) == c);
        }
    }
}

/// Feeding the forged suffix to a checksum seeded with `from` yields `to`,
/// for every pair of 32-bit values.
pub proof fn lemma_forge_round_trip(from: u32, to: u32)
    ensures
        crc32_seeded(from, forged_suffix(from, to)) == to,
{
    let t = to ^ FINAL_XOR;
    let s = from ^ FINAL_XOR;
    let a = forge_acc(t, 32);
    lemma_fold_word(s, forged_word(from, to));
    lemma_forge_acc(t, 32);
    lemma_mask_step(t, 0);
    assert(s ^ (a ^ s) == a) by (bit_vector);
    assert(t ^ FINAL_XOR == to) by (bit_vector)
        requires t == to ^ FINAL_XOR;
}

/// Appending the suffix forged from a file's checksum gives the file the
/// checksum `to`, whatever its bytes.
pub proof fn lemma_forged_file(file: Seq<u8>, to: u32)
    ensures
        crc32(file + forged_suffix(crc32(file), to)) == to,
{
    let from = crc32(file);
    let sfx = forged_suffix(from, to);
    let r = crc_fold(0u32 ^ FINAL_XOR, file);
    lemma_crc_fold_append(0u32 ^ FINAL_XOR, file, sfx);
    assert((r ^ FINAL_XOR) ^ FINAL_XOR == r) by (bit_vector);
    lemma_forge_round_trip(from, to);
}

/// Two suffixes forged from the same pair of checksums are the same bytes.
pub proof fn lemma_forge_deterministic(from: u32, to: u32, first: [u8; 4], second: [u8; 4])
    requires
        first@ == forged_suffix(from, to),
        second@ == forged_suffix(from, to),
    ensures
        first@ == second@,
{
}

/// The four bytes which, appended to input whose CRC32 is `from`, give it the
/// CRC32 `to`. Defined for every pair, `from == to` included.
pub fn calculate_new_bytes(from: u32, to: u32) -> (r: [u8; 4])
    ensures
        r@ == forged_suffix(from, to),
        crc32_seeded(from, r@) == to,
{
    let ghost t = to ^ FINAL_XOR;
    let mut content: u32 = 0;
    let mut target: u32 = to ^ FINAL_XOR;
    let mut i: u32 = 0;
    assert(t >> 0u32 == t) by (bit_vector);
    while i < 32
        invariant
            i <= 32,
            t == to ^ FINAL_XOR,
            content == forge_acc(t, i as nat),
            target == t >> i,
        decreases 32 - i,
    {
        if content & 1 == 1 {
            content = (content >> 1) ^ CRC_POLY;
        } else {
            content = content >> 1;
        }
        if target & 1 == 1 {
            content = content ^ CRC_INV;
        }
        assert((t >> i) >> 1u32 == t >> ((i + 1) as u32)) by (bit_vector)
            requires i < 32;
        target = target >> 1;
        i = i + 1;
    }
    content = content ^ (from ^ FINAL_XOR);
    let bytes: [u8; 4] = [content as u8, (content >> 8) as u8, (content >> 16) as u8, (content >> 24) as u8];
    proof {
        assert(bytes@ =~= forged_suffix(from, to));
        lemma_forge_round_trip(from, to);
    }
    bytes
}

} // verus!
