//! Identifiers: random version-4 UUIDs and their text form (uuid crate).

use vstd::prelude::*;
use vstd::arithmetic::power2::pow2;
use crate::table::Table;

verus! {

/// Lowercase hexadecimal digit for a value in 0..16.
pub open spec fn hex_digit(n: int) -> char {
    if n < 10 {
        (48 + n) as char
    } else {
        (87 + n) as char
    }
}

/// Which of the 32 hexadecimal digits (0 the most significant) stands at
/// position `i` of the hyphenated form, where positions 8, 13, 18 and 23
/// hold hyphens.
pub open spec fn digit_index(i: int) -> int {
    if i < 8 {
        i
    } else if i < 13 {
        i - 1
    } else if i < 18 {
        i - 2
    } else if i < 23 {
        i - 3
    } else {
        i - 4
    }
}

/// The hyphenated lowercase text of the UUID whose 128-bit value is `id`:
/// its 32 hexadecimal digits, most significant first, in groups of
/// 8-4-4-4-12 joined by hyphens.
pub open spec fn uuid_text(id: u128) -> Seq<char> {
    Seq::new(
        36,
        |i: int|
            if i == 8 || i == 13 || i == 18 || i == 23 {
                '-'
            } else {
                hex_digit((id as int / (pow2((4 * (31 - digit_index(i))) as nat) as int)) % 16)
            },
    )
}

/// `id` has the version digit 4 and the variant bits `10` of a random
/// (version-4) UUID.
pub open spec fn is_v4(id: u128) -> bool {
    &&& (id as int / (pow2(76) as int)) % 16 == 4
    &&& (id as int / (pow2(62) as int)) % 4 == 2
}

/// Calls uuid's `Uuid::new_v4` and returns the UUID's 128-bit value
/// (`as_u128`). The value is random; the version-4 generator always sets the
/// version digit to 4 and the two variant bits to `10`, which is all that is
/// claimed of it.
#[verifier::external_body]
pub fn random_id() -> (r: u128)
    ensures
        is_v4(r),
{
    uuid::Uuid::new_v4().as_u128()
}

/// Calls uuid's `Uuid::from_u128` and its `Display` (`to_string`), which
/// writes the hyphenated lowercase form. Claimed: the text is `uuid_text(id)`.
#[verifier::external_body]
pub fn uuid_string(id: u128) -> (r: String)
    ensures
        r@ == uuid_text(id),
{
    uuid::Uuid::from_u128(id).to_string()
}

/// `s` is the hyphenated lowercase text of a version-4 UUID.
pub open spec fn is_v4_text(s: Seq<char>) -> bool {
    exists|id: u128| #![trigger uuid_text(id)] is_v4(id) && s == uuid_text(id)
}

/// A fresh random identifier in text form, as used for projects and users:
/// the hyphenated text of a random version-4 UUID.
pub fn random_text_id() -> (r: String)
    ensures
        is_v4_text(r@),
        r@.len() == 36,
{
    let id = random_id();
    let r = uuid_string(id);
    assert(is_v4(id) && r@ == uuid_text(id));
    r
}

/// The `k`-th id (for `k` below 2^74) kept in reserve next to `base`: the
/// top 48 bits of `base`, the version digit 4 and variant bits `10` of a
/// version-4 UUID, and `k` spread over the 74 bits left.
pub open spec fn candidate(base: u128, k: u128) -> u128 {
    (base & 0xffff_ffff_ffff_0000_0000_0000_0000_0000u128) | 0x4000_8000_0000_0000_0000u128
        | ((k >> 62u128) << 64u128) | (k & 0x3fff_ffff_ffff_ffffu128)
}

/// Every reserve id is a version-4 UUID.
proof fn lemma_candidate_v4(base: u128, k: u128)
    requires
        k < 0x400_0000_0000_0000_0000u128,
    ensures
        is_v4(candidate(base, k)),
{
    let c = candidate(base, k);
    assert((c >> 76u128) & 0xfu128 == 4u128 && (c >> 62u128) & 3u128 == 2u128) by (bit_vector)
        requires
            c == (base & 0xffff_ffff_ffff_0000_0000_0000_0000_0000u128) | 0x4000_8000_0000_0000_0000u128
                | ((k >> 62u128) << 64u128) | (k & 0x3fff_ffff_ffff_ffffu128),
            k < 0x400_0000_0000_0000_0000u128;
    let a = c >> 76u128;
    let b = c >> 62u128;
    assert(a & 0xfu128 == a % 16) by (bit_vector);
    assert(b & 3u128 == b % 4) by (bit_vector);
    vstd::bits::lemma_u128_shr_is_div(c, 76u128);
    vstd::bits::lemma_u128_shr_is_div(c, 62u128);
}

/// Different positions give different reserve ids.
proof fn lemma_candidate_injective(base: u128, k1: u128, k2: u128)
    requires
        k1 < 0x400_0000_0000_0000_0000u128,
        k2 < 0x400_0000_0000_0000_0000u128,
        candidate(base, k1) == candidate(base, k2),
    ensures
        k1 == k2,
{
    assert(k1 == k2) by (bit_vector)
        requires
            k1 < 0x400_0000_0000_0000_0000u128,
            k2 < 0x400_0000_0000_0000_0000u128,
            (base & 0xffff_ffff_ffff_0000_0000_0000_0000_0000u128) | 0x4000_8000_0000_0000_0000u128
                | ((k1 >> 62u128) << 64u128) | (k1 & 0x3fff_ffff_ffff_ffffu128)
            == (base & 0xffff_ffff_ffff_0000_0000_0000_0000_0000u128) | 0x4000_8000_0000_0000_0000u128
                | ((k2 >> 62u128) << 64u128) | (k2 & 0x3fff_ffff_ffff_ffffu128);
}

/// The `k`-th reserve id next to `base`.
fn candidate_id(base: u128, k: u128) -> (r: u128)
    requires
        k < 0x400_0000_0000_0000_0000u128,
    ensures
        r == candidate(base, k),
        is_v4(r),
{
    proof {
        lemma_candidate_v4(base, k);
    }
    (base & 0xffff_ffff_ffff_0000_0000_0000_0000_0000u128) | 0x4000_8000_0000_0000_0000u128
        | ((k >> 62u128) << 64u128) | (k & 0x3fff_ffff_ffff_ffffu128)
}

/// No more than `n` distinct ids fit in a table with `n` keys: a sequence
/// of distinct ids, all keys of `t`, is no longer than `t`.
proof fn lemma_distinct_keys_fit<V>(t: Table<u128, V>, ids: Seq<u128>)
    requires
        t.wf(),
        ids.no_duplicates(),
        forall|j: int| 0 <= j < ids.len() ==> t.map().contains_key(#[trigger] ids[j]),
    ensures
        ids.len() <= t.vals().len(),
{
    t.lemma_table_len();
    ids.unique_seq_to_set();
    assert(ids.to_set().subset_of(t.map().dom()));
    vstd::set_lib::lemma_len_subset(ids.to_set(), t.map().dom());
}

/// A random version-4 id that is not a key of `t`: a fresh random draw,
/// or, should that one be taken, the first reserve id next to it that is
/// free (there is one, since `t` has fewer keys than there are reserve ids).
pub fn fresh_id<V>(t: &Table<u128, V>) -> (r: u128)
    requires
        t.wf(),
    ensures
        is_v4(r),
        !t.map().contains_key(r),
{
    let base = random_id();
    if !t.contains_key(&base) {
        return base;
    }
    let n = t.len();
    let bound: u128 = n as u128;
    let mut k: u128 = 0;
    let ghost mut tried: Seq<u128> = Seq::empty();
    while k <= bound
        invariant
            t.wf(),
            n == t.vals().len(),
            bound == n,
            k <= bound + 1,
            tried.len() == k,
            forall|j: int| 0 <= j < k ==> #[trigger] tried[j] == candidate(base, j as u128),
            forall|j: int| 0 <= j < k ==> t.map().contains_key(#[trigger] tried[j]),
        decreases bound + 1 - k,
    {
        let c = candidate_id(base, k);
        if !t.contains_key(&c) {
            return c;
        }
        proof {
            tried = tried.push(c);
        }
        k = k + 1;
    }
    proof {
        assert forall|a: int, b: int| 0 <= a < tried.len() && 0 <= b < tried.len() && a != b implies tried[a] != tried[b] by {
            if tried[a] == tried[b] {
                lemma_candidate_injective(base, a as u128, b as u128);
            }
        }
        lemma_distinct_keys_fit(*t, tried);
        assert(false);
    }
    base
}

/// The hexadecimal digit of `id` worth 16^`e`.
spec fn hex_at(id: u128, e: int) -> int {
    (id as int / (pow2((4 * e) as nat) as int)) % 16
}

/// Different digits are written differently.
proof fn lemma_hex_digit_injective(a: int, b: int)
    requires
        0 <= a < 16,
        0 <= b < 16,
        hex_digit(a) == hex_digit(b),
    ensures
        a == b,
{
    assert(hex_digit(a) as int == if a < 10 { 48 + a } else { 87 + a });
    assert(hex_digit(b) as int == if b < 10 { 48 + b } else { 87 + b });
}

/// Equal texts have equal digits.
proof fn lemma_text_digits(a: u128, b: u128, e: int)
    requires
        uuid_text(a) == uuid_text(b),
        0 <= e < 32,
    ensures
        hex_at(a, e) == hex_at(b, e),
{
    let d = 31 - e;
    let i = if d < 8 {
        d
    } else if d < 12 {
        d + 1
    } else if d < 16 {
        d + 2
    } else if d < 20 {
        d + 3
    } else {
        d + 4
    };
    assert(digit_index(i) == d);
    assert(0 <= i < 36 && i != 8 && i != 13 && i != 18 && i != 23);
    assert(uuid_text(a)[i] == uuid_text(b)[i]);
    assert((4 * (31 - digit_index(i))) as nat == (4 * e) as nat);
    assert(uuid_text(a)[i] == hex_digit(hex_at(a, e)));
    assert(uuid_text(b)[i] == hex_digit(hex_at(b, e)));
    vstd::arithmetic::power2::lemma_pow2_pos((4 * e) as nat);
    lemma_hex_digit_injective(hex_at(a, e), hex_at(b, e));
}

/// Numbers whose lowest `m` hexadecimal digits agree agree modulo 16^`m`.
proof fn lemma_low_digits(a: u128, b: u128, m: nat)
    requires
        m <= 32,
        forall|e: int| 0 <= e < m ==> #[trigger] hex_at(a, e) == hex_at(b, e),
    ensures
        a as int % (pow2(4 * m) as int) == b as int % (pow2(4 * m) as int),
    decreases m,
{
    if m == 0 {
        vstd::arithmetic::power2::lemma2_to64();
    } else {
        let m1 = (m - 1) as nat;
        lemma_low_digits(a, b, m1);
        let p = pow2(4 * m1) as int;
        vstd::arithmetic::power2::lemma_pow2_adds(4 * m1, 4);
        vstd::arithmetic::power2::lemma2_to64();
        vstd::arithmetic::power2::lemma_pow2_pos(4 * m1);
        assert(4 * m == 4 * m1 + 4);
        assert(hex_at(a, m1 as int) == hex_at(b, m1 as int));
        vstd::arithmetic::div_mod::lemma_mod_breakdown(a as int, p, 16);
        vstd::arithmetic::div_mod::lemma_mod_breakdown(b as int, p, 16);
    }
}

/// Different ids have different texts.
pub proof fn lemma_uuid_text_injective(a: u128, b: u128)
    requires
        uuid_text(a) == uuid_text(b),
    ensures
        a == b,
{
    assert forall|e: int| 0 <= e < 32 implies #[trigger] hex_at(a, e) == hex_at(b, e) by {
        lemma_text_digits(a, b, e);
    }
    lemma_low_digits(a, b, 32);
    vstd::arithmetic::power2::lemma_pow2_adds(64, 64);
    vstd::arithmetic::power2::lemma2_to64();
    assert(pow2(128) == 0x1_0000_0000_0000_0000_0000_0000_0000_0000);
    vstd::arithmetic::div_mod::lemma_small_mod(a as nat, pow2(128));
    vstd::arithmetic::div_mod::lemma_small_mod(b as nat, pow2(128));
}

/// No more than `n` distinct texts fit in a table with `n` keys.
proof fn lemma_distinct_texts_fit<V>(t: Table<String, V>, texts: Seq<Seq<char>>)
    requires
        t.wf(),
        texts.no_duplicates(),
        forall|j: int| 0 <= j < texts.len() ==> t.map().contains_key(#[trigger] texts[j]),
    ensures
        texts.len() <= t.vals().len(),
{
    t.lemma_table_len();
    texts.unique_seq_to_set();
    assert(texts.to_set().subset_of(t.map().dom()));
    vstd::set_lib::lemma_len_subset(texts.to_set(), t.map().dom());
}

/// The text of a random version-4 id that is not a key of `t`: a fresh
/// random draw, or, should that one be taken, the first reserve id next to
/// it whose text is free.
pub fn fresh_text_id<V>(t: &Table<String, V>) -> (r: String)
    requires
        t.wf(),
    ensures
        is_v4_text(r@),
        r@.len() == 36,
        !t.map().contains_key(r@),
{
    let base = random_id();
    let first = uuid_string(base);
    if !t.contains_key(&first) {
        assert(is_v4(base) && first@ == uuid_text(base));
        return first;
    }
    let n = t.len();
    let bound: u128 = n as u128;
    let mut k: u128 = 0;
    let ghost mut tried: Seq<Seq<char>> = Seq::empty();
    while k <= bound
        invariant
            t.wf(),
            n == t.vals().len(),
            bound == n,
            k <= bound + 1,
            tried.len() == k,
            forall|j: int| 0 <= j < k ==> #[trigger] tried[j] == uuid_text(candidate(base, j as u128)),
            forall|j: int| 0 <= j < k ==> t.map().contains_key(#[trigger] tried[j]),
        decreases bound + 1 - k,
    {
        let c = candidate_id(base, k);
        let text = uuid_string(c);
        if !t.contains_key(&text) {
            assert(is_v4(c) && text@ == uuid_text(c));
            return text;
        }
        proof {
            tried = tried.push(text@);
        }
        k = k + 1;
    }
    proof {
        assert forall|a: int, b: int| 0 <= a < tried.len() && 0 <= b < tried.len() && a != b implies tried[a] != tried[b] by {
            if tried[a] == tried[b] {
                lemma_uuid_text_injective(candidate(base, a as u128), candidate(base, b as u128));
                lemma_candidate_injective(base, a as u128, b as u128);
            }
        }
        lemma_distinct_texts_fit(*t, tried);
        assert(false);
    }
    first
}

} // verus!
