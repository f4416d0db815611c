//! CRC-32 (IEEE 802.3, reflected, polynomial 0xEDB88320) as used by GPT.
use vstd::prelude::*;

verus! {

/// The reflected CRC-32 polynomial.
pub const CRC32_POLY: u32 = 0xEDB8_8320;

/// One shift of the CRC register.
pub open spec fn crc32_step(c: u32) -> u32 {
    if c & 1 == 1 {
        (c >> 1) ^ CRC32_POLY
    } else {
        c >> 1
    }
}

/// `n` shifts of the CRC register.
pub open spec fn crc32_shifts(c: u32, n: nat) -> u32
    decreases n,
{
    if n == 0 {
        c
    } else {
        crc32_step(crc32_shifts(c, (n - 1) as nat))
    }
}

/// The register after feeding in one byte.
pub open spec fn crc32_feed(c: u32, b: u8) -> u32 {
    crc32_shifts(c ^ (b as u32), 8)
}

/// The register after feeding in all of `s`, starting from all ones.
pub open spec fn crc32_register(s: Seq<u8>) -> u32
    decreases s.len(),
{
    if s.len() == 0 {
        0xFFFF_FFFF
    } else {
        crc32_feed(crc32_register(s.drop_last()), s.last())
    }
}

/// The CRC-32 of a byte sequence: the final register, inverted.
pub open spec fn crc32_of(s: Seq<u8>) -> u32 {
    crc32_register(s) ^ 0xFFFF_FFFF
}

fn feed_byte(c: u32, b: u8) -> (r: u32)
    ensures
        r == crc32_feed(c, b),
{
    let start: u32 = c ^ (b as u32);
    let mut x: u32 = start;
    let mut k: u32 = 0;
    while k < 8
        invariant
            k <= 8,
            x == crc32_shifts(start, k as nat),
        decreases 8 - k,
    {
        x = if x & 1 == 1 {
            (x >> 1) ^ CRC32_POLY
        } else {
            x >> 1
        };
        k += 1;
    }
    x
}

/// The CRC-32 checksum of `data`.
pub fn crc32(data: &[u8]) -> (r: u32)
    ensures
        r == crc32_of(data@),
{
    let n = data.len();
    let mut c: u32 = 0xFFFF_FFFF;
    let mut i: usize = 0;
    while i < n
        invariant
            n == data@.len(),
            i <= n,
            c == crc32_register(data@.take(i as int)),
        decreases n - i,
    {
        c = feed_byte(c, data[i]);
        i += 1;
        assert(data@.take(i as int).drop_last() =~= data@.take(i - 1));
    }
    assert(data@.take(n as int) =~= data@);
    c ^ 0xFFFF_FFFF
}

proof fn lemma_step_injective(a: u32, b: u32)
    requires
        crc32_step(a) == crc32_step(b),
    ensures
        a == b,
{
    assert(a == b) by (bit_vector)
        requires
            (if a & 1 == 1 {
                (a >> 1) ^ 0xEDB8_8320u32
            } else {
                a >> 1
            }) == (if b & 1 == 1 {
                (b >> 1) ^ 0xEDB8_8320u32
            } else {
                b >> 1
            }),
    ;
}

proof fn lemma_shifts_injective(a: u32, b: u32, n: nat)
    requires
        crc32_shifts(a, n) == crc32_shifts(b, n),
    ensures
        a == b,
    decreases n,
{
    if n > 0 {
        lemma_step_injective(crc32_shifts(a, (n - 1) as nat), crc32_shifts(b, (n - 1) as nat));
        lemma_shifts_injective(a, b, (n - 1) as nat);
    }
}

/// Feeding the same byte into two different registers leaves them different.
proof fn lemma_feed_keeps_apart(a: u32, b: u32, x: u8)
    requires
        a != b,
    ensures
        crc32_feed(a, x) != crc32_feed(b, x),
{
    if crc32_feed(a, x) == crc32_feed(b, x) {
        lemma_shifts_injective(a ^ (x as u32), b ^ (x as u32), 8);
        assert(a == b) by (bit_vector)
            requires
                a ^ (x as u32) == b ^ (x as u32),
        ;
    }
}

/// Feeding two different bytes into one register gives different registers.
proof fn lemma_feed_tells_apart(c: u32, x: u8, y: u8)
    requires
        x != y,
    ensures
        crc32_feed(c, x) != crc32_feed(c, y),
{
    if crc32_feed(c, x) == crc32_feed(c, y) {
        lemma_shifts_injective(c ^ (x as u32), c ^ (y as u32), 8);
        assert(x == y) by (bit_vector)
            requires
                c ^ (x as u32) == c ^ (y as u32),
        ;
    }
}

proof fn lemma_registers_stay_apart(s: Seq<u8>, t: Seq<u8>, k: int, j: int)
    requires
        s.len() == t.len(),
        0 <= k < j <= s.len(),
        forall|i: int| k < i < s.len() ==> s[i] == t[i],
        crc32_register(s.take(k + 1)) != crc32_register(t.take(k + 1)),
    ensures
        crc32_register(s.take(j)) != crc32_register(t.take(j)),
    decreases j,
{
    if j > k + 1 {
        lemma_registers_stay_apart(s, t, k, j - 1);
        assert(s.take(j).drop_last() =~= s.take(j - 1));
        assert(t.take(j).drop_last() =~= t.take(j - 1));
        lemma_feed_keeps_apart(
            crc32_register(s.take(j - 1)),
            crc32_register(t.take(j - 1)),
            s[j - 1],
        );
    }
}

/// Changing any single byte of a sequence changes its CRC-32.
pub proof fn lemma_crc32_detects_byte_change(s: Seq<u8>, k: int, b: u8)
    requires
        0 <= k < s.len(),
        s[k] != b,
    ensures
        crc32_of(s.update(k, b)) != crc32_of(s),
{
    let t = s.update(k, b);
    assert(s.take(k + 1).drop_last() =~= s.take(k));
    assert(t.take(k + 1).drop_last() =~= s.take(k));
    lemma_feed_tells_apart(crc32_register(s.take(k)), s[k], b);
    lemma_registers_stay_apart(s, t, k, s.len() as int);
    assert(s.take(s.len() as int) =~= s);
    assert(t.take(s.len() as int) =~= t);
    let rs = crc32_register(s);
    let rt = crc32_register(t);
    assert(rs ^ 0xFFFF_FFFF != rt ^ 0xFFFF_FFFF) by (bit_vector)
        requires
            rs != rt,
    ;
}

} // verus!
