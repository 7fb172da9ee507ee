//! The one's-complement checksum shared by IPv4, ICMP, TCP and UDP:
//! a byte buffer is summed as 16-bit big-endian words, with the word at one
//! offset (the checksum field itself) treated as zero, the 32-bit carries are
//! folded back into 16 bits, and the result is complemented.

use crate::addr::Ipv4Addr;
use crate::addr::Ipv6Addr;
use vstd::arithmetic::div_mod::{
    lemma_fundamental_div_mod, lemma_mod_multiples_basic, lemma_mod_multiples_vanish,
    lemma_small_mod,
};
use vstd::prelude::*;

verus! {

/// The 16-bit big-endian word at word offset `i` of `data`.
pub open spec fn word_at(data: Seq<u8>, i: int) -> int {
    (data[2 * i] as int) * 256 + (data[2 * i + 1] as int)
}

/// Sum of the first `n` big-endian words of `data`, the word at offset
/// `skip` contributing zero in place of its value.
pub open spec fn words_sum_upto(data: Seq<u8>, skip: int, n: int) -> int
    decreases n,
{
    if n <= 0 {
        0
    } else if n - 1 == skip {
        words_sum_upto(data, skip, n - 1)
    } else {
        words_sum_upto(data, skip, n - 1) + word_at(data, n - 1)
    }
}

/// Contribution of a final unpaired byte: it counts as the high-order byte
/// of one last half-word, that is as `byte * 256`.
pub open spec fn odd_tail(data: Seq<u8>) -> int {
    if data.len() % 2 == 1 {
        (data[data.len() - 1] as int) * 256
    } else {
        0
    }
}

/// The word sum of the whole buffer: every whole word except the one at
/// offset `skip` (an offset of `data.len() / 2` or more excludes nothing),
/// plus the half-word a final odd byte forms.
pub open spec fn words_sum(data: Seq<u8>, skip: int) -> int {
    words_sum_upto(data, skip, data.len() as int / 2) + odd_tail(data)
}

/// End-around-carry fold: bits above position 15 are repeatedly added back
/// into the low 16 bits until the value fits in 16 bits.
pub open spec fn fold16(s: int) -> int
    decreases s,
        when s >= 0
{
    if s < 0x10000 {
        s
    } else {
        fold16(s / 0x10000 + s % 0x10000)
    }
}

/// What finalization returns: the one's complement of the folded sum,
/// truncated to 16 bits.
pub open spec fn finalize_spec(s: int) -> int {
    0xFFFF - fold16(s)
}

/// The checksum of `data` with the word at offset `skip` treated as zero.
pub open spec fn checksum_spec(data: Seq<u8>, skip: int) -> int {
    finalize_spec(words_sum(data, skip))
}

/// The folded sum always fits in 16 bits.
pub proof fn lemma_fold16_bounds(s: int)
    requires
        s >= 0,
    ensures
        0 <= fold16(s) <= 0xFFFF,
    decreases s,
{
    if s >= 0x10000 {
        lemma_fold16_bounds(s / 0x10000 + s % 0x10000);
    }
}

/// Folding is idempotent: once the value fits in 16 bits a further fold
/// returns it unchanged.
pub proof fn lemma_fold16_idempotent(s: int)
    requires
        s >= 0,
    ensures
        fold16(fold16(s)) == fold16(s),
{
    lemma_fold16_bounds(s);
}

/// Folding preserves the value modulo 0xFFFF, because 0x10000 is congruent
/// to 1 there.
pub proof fn lemma_fold16_mod(s: int)
    requires
        s >= 0,
    ensures
        fold16(s) % 0xFFFF == s % 0xFFFF,
    decreases s,
{
    if s >= 0x10000 {
        let q = s / 0x10000;
        let r = s % 0x10000;
        lemma_fundamental_div_mod(s, 0x10000);
        assert(s == 0xFFFF * q + (q + r));
        lemma_mod_multiples_vanish(q, q + r, 0xFFFF);
        lemma_fold16_mod(q + r);
    }
}

/// Folding a positive value never reaches zero.
pub proof fn lemma_fold16_positive(s: int)
    requires
        s > 0,
    ensures
        fold16(s) > 0,
    decreases s,
{
    if s >= 0x10000 {
        lemma_fold16_positive(s / 0x10000 + s % 0x10000);
    }
}

/// A positive multiple of 0xFFFF folds to exactly 0xFFFF.
pub proof fn lemma_fold16_multiple_of_ffff(s: int)
    requires
        s > 0,
        s % 0xFFFF == 0,
    ensures
        fold16(s) == 0xFFFF,
{
    lemma_fold16_bounds(s);
    lemma_fold16_mod(s);
    lemma_fold16_positive(s);
    if fold16(s) < 0xFFFF {
        lemma_small_mod(fold16(s) as nat, 0xFFFF);
    }
}

/// Finalization is the bitwise one's complement of the folded sum.
pub proof fn lemma_finalize_is_complement(s: int)
    requires
        s >= 0,
    ensures
        finalize_spec(s) == !(fold16(s) as u16) as int,
{
    lemma_fold16_bounds(s);
    let f = fold16(s) as u16;
    assert(!f == (0xFFFF - f) as u16) by (bit_vector);
}

/// Sums `data` as consecutive 16-bit big-endian words, forcing the word at
/// word offset `skipword` to zero; a final odd byte contributes as the
/// high-order byte of a half-word. The loop visits every word position, so
/// a caller zeroes its checksum field without mutating the buffer.
pub fn sum_be_words(data: &[u8], skipword: usize) -> (sum: u64)
    requires
        data@.len() <= 0xFFFF_FFFF,
        skipword <= data@.len() / 2,
    ensures
        sum == words_sum(data@, skipword as int),
        sum <= 0xFFFF * (data@.len() / 2) + 0xFF00,
{
    let len = data.len();
    let words = len / 2;
    let mut sum: u64 = 0;
    let mut i: usize = 0;
    while i < words
        invariant
            i <= words,
            words == data@.len() / 2,
            data@.len() <= 0xFFFF_FFFF,
            sum == words_sum_upto(data@, skipword as int, i as int),
            sum <= 0xFFFF * i,
        decreases words - i,
    {
        if i != skipword {
            let w = (data[2 * i] as u64) * 256 + (data[2 * i + 1] as u64);
            sum = sum + w;
        }
        i = i + 1;
    }
    if len % 2 == 1 {
        sum = sum + (data[len - 1] as u64) * 256;
    }
    sum
}

/// The checksum of `data` with the 16-bit word at word offset `skipword`
/// treated as zero during summation; that word is normally the buffer's own
/// checksum field. Used directly by protocols with no pseudo-header.
pub fn checksum(data: &[u8], skipword: usize) -> (r: u16)
    requires
        data@.len() <= 0xFFFF_FFFF,
        skipword <= data@.len() / 2,
    ensures
        r as int == checksum_spec(data@, skipword as int),
{
    let sum = sum_be_words(data, skipword);
    finalize_checksum(sum)
}

/// A word sum is never negative.
proof fn lemma_words_sum_upto_nonneg(data: Seq<u8>, skip: int, n: int)
    ensures
        words_sum_upto(data, skip, n) >= 0,
    decreases n,
{
    if n > 0 {
        lemma_words_sum_upto_nonneg(data, skip, n - 1);
    }
}

/// Buffers whose words agree everywhere but at the excluded offset have the
/// same word sum.
proof fn lemma_words_sum_upto_agree(d1: Seq<u8>, d2: Seq<u8>, skip: int, n: int)
    requires
        forall|i: int| 0 <= i < n && i != skip ==> word_at(d1, i) == word_at(d2, i),
    ensures
        words_sum_upto(d1, skip, n) == words_sum_upto(d2, skip, n),
    decreases n,
{
    if n > 0 {
        lemma_words_sum_upto_agree(d1, d2, skip, n - 1);
    }
}

/// Excluding no word counts exactly the word at `skip` more than excluding
/// it.
proof fn lemma_words_sum_upto_split(data: Seq<u8>, none: int, skip: int, n: int)
    requires
        0 <= skip < n,
        none >= n,
    ensures
        words_sum_upto(data, none, n) == words_sum_upto(data, skip, n) + word_at(data, skip),
    decreases n,
{
    if skip == n - 1 {
        lemma_words_sum_upto_agree(data, data, none, n - 1);
        lemma_words_sum_upto_agree(data, data, skip, n - 1);
        lemma_words_sum_upto_same(data, none, skip, n - 1);
    } else {
        lemma_words_sum_upto_split(data, none, skip, n - 1);
    }
}

/// Two excluded offsets at or past `n` exclude nothing from the first `n`
/// words.
proof fn lemma_words_sum_upto_same(data: Seq<u8>, s1: int, s2: int, n: int)
    requires
        s1 >= n,
        s2 >= n,
    ensures
        words_sum_upto(data, s1, n) == words_sum_upto(data, s2, n),
    decreases n,
{
    if n > 0 {
        lemma_words_sum_upto_same(data, s1, s2, n - 1);
    }
}

/// The final unpaired byte of an odd-length buffer contributes exactly
/// `byte * 256` over the sum of the even-length buffer before it.
pub proof fn lemma_odd_tail_contribution(data: Seq<u8>, skip: int)
    requires
        data.len() % 2 == 1,
    ensures
        words_sum(data, skip) == words_sum(data.take(data.len() - 1), skip) + (data[data.len()
            - 1] as int) * 256,
{
    let head = data.take(data.len() - 1);
    assert(head.len() as int / 2 == data.len() as int / 2);
    assert forall|i: int| 0 <= i < data.len() as int / 2 && i != skip implies word_at(
        data,
        i,
    ) == word_at(head, i) by {
        assert(2 * i + 1 < data.len() - 1);
    }
    lemma_words_sum_upto_agree(data, head, skip, data.len() as int / 2);
}

/// The self-consistency law of the Internet checksum: write the checksum of
/// a buffer into its own checksum field, big-endian, and the one's-complement
/// sum of the whole buffer, nothing excluded, folds to 0xFFFF — so running
/// the checksum over the stamped buffer returns zero.
pub proof fn lemma_checksum_round_trip(data: Seq<u8>, skip: int)
    requires
        0 <= skip,
        2 * skip + 1 < data.len(),
    ensures
        ({
            let c = checksum_spec(data, skip);
            let stamped = data.update(2 * skip, (c / 256) as u8).update(
                2 * skip + 1,
                (c % 256) as u8,
            );
            &&& fold16(words_sum(stamped, stamped.len() as int / 2)) == 0xFFFF
            &&& checksum_spec(stamped, stamped.len() as int / 2) == 0
        }),
{
    let wc = data.len() as int / 2;
    let s = words_sum(data, skip);
    lemma_words_sum_upto_nonneg(data, skip, wc);
    assert(odd_tail(data) >= 0);
    lemma_fold16_bounds(s);
    let f = fold16(s);
    let c = 0xFFFF - f;
    let stamped = data.update(2 * skip, (c / 256) as u8).update(2 * skip + 1, (c % 256) as u8);

    // The stamped buffer differs from `data` only inside the excluded word,
    // so its sum with that word excluded is unchanged.
    assert(stamped.len() == data.len());
    assert forall|i: int| 0 <= i < wc && i != skip implies word_at(stamped, i) == word_at(
        data,
        i,
    ) by {
        assert(2 * i != 2 * skip && 2 * i != 2 * skip + 1);
        assert(2 * i + 1 != 2 * skip && 2 * i + 1 != 2 * skip + 1);
    }
    lemma_words_sum_upto_agree(stamped, data, skip, wc);
    assert(odd_tail(stamped) == odd_tail(data)) by {
        if data.len() % 2 == 1 {
            assert(2 * skip + 1 != data.len() - 1);
            assert(2 * skip != data.len() - 1);
        }
    }
    assert(words_sum(stamped, skip) == s);

    // The excluded word of the stamped buffer holds exactly the checksum.
    assert(0 <= c <= 0xFFFF);
    assert(word_at(stamped, skip) == c) by {
        assert(stamped[2 * skip] == (c / 256) as u8);
        assert(stamped[2 * skip + 1] == (c % 256) as u8);
        lemma_fundamental_div_mod(c, 256);
    }
    assert(skip < wc);
    lemma_words_sum_upto_split(stamped, wc, skip, wc);
    let total = words_sum(stamped, wc);
    assert(total == s + c);

    // The full sum is a positive multiple of 0xFFFF, and such a value folds
    // to 0xFFFF exactly.
    lemma_fold16_mod(s);
    lemma_fundamental_div_mod(s, 0xFFFF);
    let q = s / 0xFFFF;
    assert(total == 0xFFFF * q + (s % 0xFFFF) + 0xFFFF - f);
    assert(f % 0xFFFF == s % 0xFFFF);
    if f < 0xFFFF {
        lemma_small_mod(f as nat, 0xFFFF);
        assert(total == 0xFFFF * (q + 1));
        lemma_mod_multiples_basic(q + 1, 0xFFFF);
    } else {
        assert(f == 0xFFFF);
        lemma_mod_multiples_basic(1, 0xFFFF);
        assert(s % 0xFFFF == 0);
        assert(total == 0xFFFF * q);
        lemma_mod_multiples_basic(q, 0xFFFF);
    }
    assert(total % 0xFFFF == 0);
    assert(total > 0) by {
        if s == 0 {
            assert(f == 0);
        }
    }
    lemma_fold16_multiple_of_ffff(total);
}

/// The two 16-bit big-endian words an IPv4 address contributes to its
/// pseudo-header.
pub open spec fn ipv4_words(ip: Ipv4Addr) -> int {
    ((ip.0 as int) * 256 + (ip.1 as int)) + ((ip.2 as int) * 256 + (ip.3 as int))
}

/// The eight 16-bit segments an IPv6 address contributes to its
/// pseudo-header.
pub open spec fn ipv6_words(ip: Ipv6Addr) -> int {
    (ip.0 as int) + (ip.1 as int) + (ip.2 as int) + (ip.3 as int) + (ip.4 as int) + (ip.5 as int)
        + (ip.6 as int) + (ip.7 as int)
}

/// The checksum of a packet built on IPv4, with the pseudo-header words for
/// `source`, `destination`, the next-level protocol number and the combined
/// byte length added to the word sums of `data` (its word at `skip` treated
/// as zero) and of `extra_data` (no word excluded).
pub open spec fn ipv4_checksum_spec(
    data: Seq<u8>,
    skip: int,
    extra_data: Seq<u8>,
    source: Ipv4Addr,
    destination: Ipv4Addr,
    next_level_protocol: u8,
) -> int {
    finalize_spec(
        ipv4_words(source) + ipv4_words(destination) + (next_level_protocol as int) + data.len()
            + extra_data.len() + words_sum(data, skip) + words_sum(
            extra_data,
            extra_data.len() as int / 2,
        ),
    )
}

/// The checksum of a packet built on IPv6, identical to the IPv4 form but
/// for the address words.
pub open spec fn ipv6_checksum_spec(
    data: Seq<u8>,
    skip: int,
    extra_data: Seq<u8>,
    source: Ipv6Addr,
    destination: Ipv6Addr,
    next_level_protocol: u8,
) -> int {
    finalize_spec(
        ipv6_words(source) + ipv6_words(destination) + (next_level_protocol as int) + data.len()
            + extra_data.len() + words_sum(data, skip) + words_sum(
            extra_data,
            extra_data.len() as int / 2,
        ),
    )
}

fn ipv4_word_sum(ip: Ipv4Addr) -> (s: u32)
    ensures
        s == ipv4_words(ip),
{
    ((ip.0 as u32) * 256 + ip.1 as u32) + ((ip.2 as u32) * 256 + ip.3 as u32)
}

fn ipv6_word_sum(ip: Ipv6Addr) -> (s: u32)
    ensures
        s == ipv6_words(ip),
{
    ip.0 as u32 + ip.1 as u32 + ip.2 as u32 + ip.3 as u32 + ip.4 as u32 + ip.5 as u32
        + ip.6 as u32 + ip.7 as u32
}

/// Calculate the checksum for a packet built on IPv4. Used by udp and tcp.
/// `data` holds the header with the checksum field at word offset
/// `skipword`; `extra_data` holds a payload with no checksum field of its
/// own, so no word of it is excluded.
pub fn ipv4_checksum(
    data: &[u8],
    skipword: usize,
    extra_data: &[u8],
    source: Ipv4Addr,
    destination: Ipv4Addr,
    next_level_protocol: u8,
) -> (r: u16)
    requires
        data@.len() + extra_data@.len() <= 0xFFFF_FFFF,
        skipword <= data@.len() / 2,
    ensures
        r as int == ipv4_checksum_spec(
            data@,
            skipword as int,
            extra_data@,
            source,
            destination,
            next_level_protocol,
        ),
{
    let mut sum: u64 = 0;
    sum += ipv4_word_sum(source) as u64;
    sum += ipv4_word_sum(destination) as u64;
    sum += next_level_protocol as u64;
    sum += (data.len() as u64) + (extra_data.len() as u64);
    sum += sum_be_words(data, skipword);
    sum += sum_be_words(extra_data, extra_data.len() / 2);
    finalize_checksum(sum)
}

/// Calculate the checksum for a packet built on IPv6, with the
/// pseudo-header summing the eight 16-bit segments of each address
/// directly.
pub fn ipv6_checksum(
    data: &[u8],
    skipword: usize,
    extra_data: &[u8],
    source: Ipv6Addr,
    destination: Ipv6Addr,
    next_level_protocol: u8,
) -> (r: u16)
    requires
        data@.len() + extra_data@.len() <= 0xFFFF_FFFF,
        skipword <= data@.len() / 2,
    ensures
        r as int == ipv6_checksum_spec(
            data@,
            skipword as int,
            extra_data@,
            source,
            destination,
            next_level_protocol,
        ),
{
    let mut sum: u64 = 0;
    sum += ipv6_word_sum(source) as u64;
    sum += ipv6_word_sum(destination) as u64;
    sum += next_level_protocol as u64;
    sum += (data.len() as u64) + (extra_data.len() as u64);
    sum += sum_be_words(data, skipword);
    sum += sum_be_words(extra_data, extra_data.len() / 2);
    finalize_checksum(sum)
}

/// Folds the accumulated carries of `sum` into 16 bits and returns their
/// one's complement.
pub fn finalize_checksum(sum: u64) -> (r: u16)
    ensures
        r as int == finalize_spec(sum as int),
{
    let mut s: u64 = sum;
    while s >= 0x10000
        invariant
            fold16(s as int) == fold16(sum as int),
        decreases s,
    {
        proof {
            lemma_fundamental_div_mod(s as int, 0x10000);
        }
        s = s / 0x10000 + s % 0x10000;
    }
    proof {
        lemma_finalize_is_complement(sum as int);
    }
    !(s as u16)
}

} // verus!
