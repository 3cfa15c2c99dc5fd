//! A short, stable, name-safe digest: FNV-1a over bytes, spelled in sixteen hex digits.
//!
//! It keeps names apart and is no security boundary.
use vstd::prelude::*;
use crate::text::{hex_char, hex_digit, lemma_hex_digits_differ};

verus! {

/// FNV-1a's starting value.
pub const FNV_OFFSET: u64 = 0xcbf2_9ce4_8422_2325;

/// FNV-1a's multiplier.
pub const FNV_PRIME: u64 = 0x0000_0100_0000_01b3;

/// The 64-bit FNV-1a hash of `bytes`.
pub open spec fn fnv(bytes: Seq<u8>) -> u64
    decreases bytes.len(),
{
    if bytes.len() == 0 {
        FNV_OFFSET
    } else {
        (fnv(bytes.drop_last()) ^ (bytes.last() as u64)).wrapping_mul(FNV_PRIME)
    }
}

/// The last `digits` base-sixteen digits of `n`, in lower case.
pub open spec fn hex_word(n: nat, digits: nat) -> Seq<char>
    decreases digits,
{
    if digits == 0 {
        Seq::empty()
    } else {
        hex_word(n / 16, (digits - 1) as nat).push(hex_digit(n % 16))
    }
}

/// The digest of `bytes`.
pub open spec fn digest(bytes: Seq<u8>) -> Seq<char> {
    hex_word(fnv(bytes) as nat, 16)
}

/// A hex spelling is as long as asked for and made of lower-case base-sixteen digits.
pub proof fn lemma_hex_word(n: nat, digits: nat)
    ensures
        hex_word(n, digits).len() == digits,
        forall|i: int|
            0 <= i < digits ==> ('0' as u32 <= #[trigger] hex_word(n, digits)[i] as u32
                <= '9' as u32 || 'a' as u32 <= hex_word(n, digits)[i] as u32 <= 'f' as u32),
    decreases digits,
{
    if digits > 0 {
        lemma_hex_word(n / 16, (digits - 1) as nat);
    }
}

fn hex_word_of(n: u64, digits: usize) -> (out: String)
    ensures
        out@ == hex_word(n as nat, digits as nat),
    decreases digits,
{
    if digits == 0 {
        String::new()
    } else {
        let mut out = hex_word_of(n / 16, digits - 1);
        out.push(hex_char((n % 16) as u8));
        out
    }
}

/// The digest of `bytes`: sixteen lower-case hex digits.
pub fn short_digest(bytes: &[u8]) -> (out: String)
    ensures
        out@ == digest(bytes@),
{
    let mut hash: u64 = FNV_OFFSET;
    let mut i: usize = 0;
    while i < bytes.len()
        invariant
            i <= bytes.len(),
            hash == fnv(bytes@.take(i as int)),
        decreases bytes.len() - i,
    {
        assert(bytes@.take(i + 1).drop_last() =~= bytes@.take(i as int));
        hash = hash ^ (bytes[i] as u64);
        hash = hash.wrapping_mul(FNV_PRIME);
        i = i + 1;
    }
    assert(bytes@.take(i as int) =~= bytes@);
    hex_word_of(hash, 16)
}

/// The hash is the 64-bit FNV-1a: each byte is folded in and the whole multiplied by the prime,
/// starting from the offset.
pub proof fn law_each_byte_is_folded_in(bytes: Seq<u8>, byte: u8)
    ensures
        fnv(Seq::empty()) == 0xcbf2_9ce4_8422_2325,
        fnv(bytes.push(byte)) == ((fnv(bytes) ^ (byte as u64)) * 0x100_0000_01b3)
            % 0x1_0000_0000_0000_0000,
{
    assert(bytes.push(byte).drop_last() =~= bytes);
    assert(FNV_PRIME == 0x100_0000_01b3);
}

spec fn reach(digits: nat) -> nat
    decreases digits,
{
    if digits == 0 {
        1
    } else {
        16 * reach((digits - 1) as nat)
    }
}

proof fn lemma_hex_words_differ(a: nat, b: nat, digits: nat)
    requires
        a < reach(digits),
        b < reach(digits),
        hex_word(a, digits) == hex_word(b, digits),
    ensures
        a == b,
    decreases digits,
{
    if digits > 0 {
        let less = (digits - 1) as nat;
        let x = hex_word(a / 16, less);
        let y = hex_word(b / 16, less);
        assert(hex_word(a, digits).drop_last() =~= x);
        assert(hex_word(b, digits).drop_last() =~= y);
        assert(hex_word(a, digits).last() == hex_digit(a % 16));
        assert(hex_word(b, digits).last() == hex_digit(b % 16));
        lemma_hex_words_differ(a / 16, b / 16, less);
        lemma_hex_digits_differ(a % 16, b % 16);
    }
}

/// A digest spells the whole hash in sixteen digits: two inputs share a digest only if they
/// share a hash.
pub proof fn law_a_digest_spells_the_whole_hash(a: Seq<u8>, b: Seq<u8>)
    ensures
        digest(a).len() == 16,
        digest(a) == digest(b) <==> fnv(a) == fnv(b),
{
    lemma_hex_word(fnv(a) as nat, 16);
    if digest(a) == digest(b) {
        reveal_with_fuel(reach, 17);
        lemma_hex_words_differ(fnv(a) as nat, fnv(b) as nat, 16);
    }
}

} // verus!
